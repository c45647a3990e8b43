//! Go-to-definition via "git grep for recall, a model for precision".
//!
//! Every word-boundary occurrence of the symbol is a candidate; a model is asked
//! which candidate is the definition. The model only ever sees the candidates,
//! so it cannot name a location that is not a real grep hit.

use crate::number::{push_decimal, read_usize};
use crate::path::base_name_of;
use crate::text::{chars_of, cut, lines_of, string_of, trimmed, Sep};
use vstd::prelude::*;
use vstd::slice::slice_subrange;

verus! {

broadcast use {crate::seqs::lemma_views_push, crate::seqs::lemma_views_update};

/// Cap candidates so the prompt stays bounded on a huge monorepo.
pub const MAX_CANDIDATES: usize = 60;

/// How much of a candidate's line is kept.
pub const MAX_TEXT: usize = 200;

/// A place where the symbol occurs.
#[derive(Debug, PartialEq)]
pub struct Candidate {
    pub file: String,
    pub line: usize,
    pub text: String,
}

/// What a [`Candidate`] holds.
#[verifier::ext_equal]
pub struct CandidateModel {
    pub file: Seq<char>,
    pub line: usize,
    pub text: Seq<char>,
}

impl View for Candidate {
    type V = CandidateModel;

    open spec fn view(&self) -> CandidateModel {
        CandidateModel { file: self.file@, line: self.line, text: self.text@ }
    }
}

impl Clone for Candidate {
    fn clone(&self) -> (r: Self)
        ensures
            r@ == self@,
    {
        Candidate { file: self.file.clone(), line: self.line, text: self.text.clone() }
    }
}

/// A character of an identifier-ish token.
pub open spec fn is_symbol_char(c: char) -> bool {
    crate::text::is_alphanumeric(c) || c == '_' || c == ':' || c == '~'
}

/// An identifier-ish token.
pub open spec fn is_symbol(s: Seq<char>) -> bool {
    s.len() > 0 && forall|i: int| 0 <= i < s.len() ==> is_symbol_char(#[trigger] s[i])
}

/// Is `symbol` an identifier-ish token safe to pass to `git grep` (no shell or
/// regex surprises)?
pub fn is_safe_symbol(symbol: &str) -> (r: bool)
    ensures
        r == is_symbol(symbol@),
{
    let cs = chars_of(symbol);
    if cs.len() == 0 {
        return false;
    }
    for i in 0..cs.len()
        invariant
            cs@ == symbol@,
            forall|k: int| 0 <= k < i ==> is_symbol_char(#[trigger] cs@[k]),
    {
        let c: char = cs[i];
        if !(c.is_alphanumeric() || c == '_' || c == ':' || c == '~') {
            assert(!is_symbol_char(symbol@[i as int]));
            return false;
        }
    }
    true
}

/// A safe symbol is one word to a shell and no option to a command: it holds no
/// white space, no quote and none of the characters that a shell or a regular
/// expression gives a meaning to, and it does not begin with a hyphen.
pub proof fn safe_symbol_is_inert(s: Seq<char>, i: int)
    requires
        is_symbol(s),
        0 <= i < s.len(),
        (s[i] as u32) < 128,
    ensures
        crate::text::is_ascii_alphanumeric(s[i]) || s[i] == '_' || s[i] == ':' || s[i] == '~',
        s[i] != ' ' && s[i] != '\'' && s[i] != '"' && s[i] != '\\' && s[i] != ';' && s[i] != '&'
            && s[i] != '|' && s[i] != '$' && s[i] != '`' && s[i] != '*' && s[i] != '.' && s[i] != '['
            && s[i] != '(' && s[i] != '<' && s[i] != '>' && s[i] != '-',
{
    assert(is_symbol_char(s[i]));
}

/// The first `n` characters of `s`, or all of them.
pub open spec fn up_to(s: Seq<char>, n: nat) -> Seq<char> {
    if s.len() > n {
        s.take(n as int)
    } else {
        s
    }
}

/// What follows the first two colons, when the pieces between colons are `p`.
pub open spec fn third_column(p: Seq<Seq<char>>) -> Seq<char> {
    crate::text::join(p.skip(2), seq![':'])
}

/// The candidate that a line `path:lineno:code` names.
pub open spec fn candidate_of(line: Seq<char>) -> Option<CandidateModel> {
    let p = crate::text::split(line, ':');
    if p.len() < 3 {
        None
    } else {
        match crate::number::parse_number(p[1], usize::MAX as nat) {
            Some(n) => Some(
                CandidateModel {
                    file: p[0],
                    line: n as usize,
                    text: up_to(crate::text::trim(third_column(p)), MAX_TEXT as nat),
                },
            ),
            None => None,
        }
    }
}

/// The candidates that these lines name, in order, as many as are kept.
pub open spec fn candidates_in(lines: Seq<Seq<char>>) -> Seq<CandidateModel>
    decreases lines.len(),
{
    if lines.len() == 0 {
        Seq::empty()
    } else {
        let before = candidates_in(lines.drop_last());
        match candidate_of(lines.last()) {
            Some(c) => if before.len() < MAX_CANDIDATES {
                before.push(c)
            } else {
                before
            },
            None => before,
        }
    }
}

proof fn lemma_tail_joined(p: Seq<Seq<char>>, s: Seq<char>, k: nat, at: nat)
    requires
        p == crate::text::split(s, ':'),
        0 < k < p.len(),
        at <= s.len(),
        crate::text::join(p.take(k as int), seq![':']).push(':') == s.take(at as int),
    ensures
        crate::text::join(p.skip(k as int), seq![':']) == s.skip(at as int),
{
    crate::text::lemma_join_split(s, ':');
    crate::text::lemma_join_parts(p.take(k as int), p.skip(k as int), ':');
    assert(p.take(k as int) + p.skip(k as int) == p);
    let tail = crate::text::join(p.skip(k as int), seq![':']);
    let head = s.take(at as int);
    assert(s == head + tail);
    assert(s.skip(at as int) == tail);
}

fn read_candidate(line: &str) -> (r: Option<Candidate>)
    ensures
        crate::seqs::opt_view(r) == candidate_of(line@),
{
    let cs = chars_of(line);
    let spans = cut(cs.as_slice(), Sep::Char(':'));
    let ghost p = crate::text::split(line@, ':');
    if spans.len() < 3 {
        return None;
    }
    assert(spans@[0].0 <= spans@[0].1);
    assert(spans@[1].0 <= spans@[1].1);
    let file = slice_subrange(cs.as_slice(), spans[0].0, spans[0].1);
    let number = slice_subrange(cs.as_slice(), spans[1].0, spans[1].1);
    let n: usize = match read_usize(number) {
        Some(n) => n,
        None => return None,
    };
    proof {
        crate::text::lemma_first_pieces(line@, ':', 2);
        let two = p.take(2);
        assert(two.drop_last() == seq![p[0]]);
        assert(crate::text::join(two.drop_last(), seq![':']) == p[0]);
        assert(crate::text::join(two, seq![':']) == p[0] + seq![':'] + p[1]);
        assert(crate::text::join(two, seq![':']).push(':').len() == file@.len() + number@.len() + 2);
    }
    let len: usize = cs.len();
    let start: usize = file.len() + number.len() + 2;
    let code = slice_subrange(cs.as_slice(), start, len);
    proof {
        assert(code@ == line@.skip(start as int));
        lemma_tail_joined(p, line@, 2, start as nat);
    }
    let body = trimmed(code);
    let text = if body.len() > MAX_TEXT {
        let head = slice_subrange(body, 0, MAX_TEXT);
        assert(head@ == body@.take(MAX_TEXT as int));
        string_of(head)
    } else {
        string_of(body)
    };
    Some(Candidate { file: string_of(file), line: n, text })
}

/// Parse `git grep -n` output (`path:lineno:code` per line) into candidates,
/// capped at MAX_CANDIDATES.
pub fn parse_grep_output(stdout: &str) -> (r: Vec<Candidate>)
    ensures
        crate::seqs::views(r@) == candidates_in(crate::text::lines(stdout@)),
{
    let lines = lines_of(stdout);
    let ghost ls = crate::text::lines(stdout@);
    let mut r: Vec<Candidate> = Vec::new();
    assert(crate::seqs::views(r@) == Seq::<CandidateModel>::empty());
    for i in 0..lines.len()
        invariant
            ls == crate::seqs::views(lines@),
            crate::seqs::views(r@) == candidates_in(ls.take(i as int)),
            r@.len() <= MAX_CANDIDATES,
    {
        assert(ls.take(i + 1).drop_last() == ls.take(i as int));
        assert(ls.take(i + 1).last() == lines@[i as int]@);
        assert(crate::seqs::views(r@).len() == r@.len());
        if r.len() < MAX_CANDIDATES {
            if let Some(c) = read_candidate(lines[i].as_str()) {
                r.push(c);
            }
        }
    }
    assert(ls.take(ls.len() as int) == ls);
    r
}

/// The arguments of `git` that search for `symbol`, where it is safe to search
/// for. Untracked files are searched too: a definition can be in a new file.
pub fn grep_args(symbol: &str) -> (r: Option<Vec<String>>)
    ensures
        r is Some <==> is_symbol(symbol@),
        r matches Some(v) ==> crate::seqs::views(v@) == seq![
            "grep"@,
            "-n"@,
            "-w"@,
            "--untracked"@,
            "--"@,
            symbol@,
        ],
{
    if !is_safe_symbol(symbol) {
        return None;
    }
    let v = vec![
        "grep".to_owned(),
        "-n".to_owned(),
        "-w".to_owned(),
        "--untracked".to_owned(),
        "--".to_owned(),
        symbol.to_owned(),
    ];
    assert(crate::seqs::views(v@) == seq![
        "grep"@,
        "-n"@,
        "-w"@,
        "--untracked"@,
        "--"@,
        symbol@,
    ]);
    Some(v)
}

/// The args (excluding the prompt itself) of the agent's `program`: the model is
/// one of its own, whose name begins with the program's, wherever it stands.
pub open spec fn agent_args(program: Seq<char>) -> Seq<Seq<char>> {
    seq!["-p"@, "--model"@, crate::path::base_name(program) + "-haiku-4-5-20251001"@]
}

/// The args (excluding the prompt itself) with which the agent's `program` is
/// run for the precision step, the same wherever it runs.
pub fn claude_args(program: &str) -> (r: [String; 3])
    ensures
        crate::seqs::views(r@) == agent_args(program@),
{
    let r = [
        "-p".to_owned(),
        "--model".to_owned(),
        base_name_of(program).concat("-haiku-4-5-20251001"),
    ];
    assert(crate::seqs::views(r@) == agent_args(program@));
    r
}

/// The model of a program that is named without its directory.
pub proof fn plain_program_begins_its_model(program: Seq<char>)
    requires
        crate::text::unbroken(program, Sep::Char('/')),
    ensures
        agent_args(program)[2] == program + "-haiku-4-5-20251001"@,
{
    crate::text::lemma_pieces_unbroken(program, Sep::Char('/'));
}

/// The numbered lines of the candidates.
pub open spec fn numbered_candidates(cands: Seq<CandidateModel>) -> Seq<char>
    decreases cands.len(),
{
    if cands.len() == 0 {
        Seq::empty()
    } else {
        let c = cands.last();
        numbered_candidates(cands.drop_last()) + crate::number::decimal(cands.len()) + ". "@
            + c.file + ":"@ + crate::number::decimal(c.line as nat) + ": "@ + c.text + "\n"@
    }
}

/// The prompt of the precision step.
pub open spec fn prompt(
    symbol: Seq<char>,
    usage: Option<Seq<char>>,
    cands: Seq<CandidateModel>,
) -> Seq<char> {
    "You are locating where the symbol `"@ + symbol
        + "` is DEFINED or DECLARED (not merely used) in a codebase.\n"@ + (match usage {
        Some(u) => "It is used here: "@ + u + "\n"@,
        None => Seq::empty(),
    })
        + "\nCandidate locations (file:line: code):\nReply with ONLY the number of the candidate that is the definition/declaration. If none is a definition, reply 0. No other text.\n\n"@
        + numbered_candidates(cands)
}

/// Build the precision prompt: numbered candidates, ask for the definition's
/// index (1-based) or 0.
pub fn build_prompt(symbol: &str, usage: Option<&str>, cands: &[Candidate]) -> (s: String)
    ensures
        s@ == prompt(symbol@, crate::seqs::opt_view(usage), crate::seqs::views(cands@)),
{
    let ghost cs = crate::seqs::views(cands@);
    let mut s = "You are locating where the symbol `".to_owned();
    s.append(symbol);
    s.append("` is DEFINED or DECLARED (not merely used) in a codebase.\n");
    if let Some(u) = usage {
        s.append("It is used here: ");
        s.append(u);
        s.append("\n");
    }
    s.append(
        "\nCandidate locations (file:line: code):\nReply with ONLY the number of the candidate that is the definition/declaration. If none is a definition, reply 0. No other text.\n\n",
    );
    let ghost start = s@;
    for i in 0..cands.len()
        invariant
            cs == crate::seqs::views(cands@),
            s@ == start + numbered_candidates(cs.take(i as int)),
    {
        let c = &cands[i];
        assert(cs.take(i + 1).drop_last() == cs.take(i as int));
        assert(cs.take(i + 1).last() == c@);
        push_decimal(&mut s, i as u64 + 1);
        s.append(". ");
        s.append(c.file.as_str());
        s.append(":");
        push_decimal(&mut s, c.line as u64);
        s.append(": ");
        s.append(c.text.as_str());
        s.append("\n");
        assert(s@ == start + numbered_candidates(cs.take(i + 1)));
    }
    assert(cs.take(cs.len() as int) == cs);
    s
}

/// `s` from its first digit on.
pub open spec fn from_digit(s: Seq<char>) -> Seq<char>
    decreases s.len(),
{
    if s.len() > 0 && !crate::number::is_digit(s[0]) {
        from_digit(s.drop_first())
    } else {
        s
    }
}

/// The digits that `s` begins with.
pub open spec fn leading_digits(s: Seq<char>) -> Seq<char>
    decreases s.len(),
{
    if s.len() > 0 && crate::number::is_digit(s[0]) {
        seq![s[0]] + leading_digits(s.drop_first())
    } else {
        Seq::empty()
    }
}

/// The first number in a reply.
pub open spec fn choice(reply: Seq<char>) -> Option<nat> {
    crate::number::parse_number(leading_digits(from_digit(reply)), usize::MAX as nat)
}

proof fn lemma_leading_digits(s: Seq<char>, n: int)
    requires
        0 <= n <= s.len(),
        forall|i: int| 0 <= i < n ==> crate::number::is_digit(#[trigger] s[i]),
        n < s.len() ==> !crate::number::is_digit(s[n]),
    ensures
        leading_digits(s) == s.take(n),
    decreases n,
{
    if n > 0 {
        let t = s.drop_first();
        assert(crate::number::is_digit(s[0]));
        assert forall|i: int| 0 <= i < n - 1 implies crate::number::is_digit(#[trigger] t[i]) by {
            assert(crate::number::is_digit(s[i + 1]));
        }
        lemma_leading_digits(t, n - 1);
        assert(s.take(n) == seq![s[0]] + t.take(n - 1));
    }
}

fn is_digit(c: char) -> (r: bool)
    ensures
        r == crate::number::is_digit(c),
{
    '0' <= c && c <= '9'
}

/// Pull the first integer out of the model's reply.
pub fn parse_choice(reply: &str) -> (r: Option<usize>)
    ensures
        r is Some <==> choice(reply@) is Some,
        r matches Some(n) ==> choice(reply@) == Some(n as nat),
{
    let cs = chars_of(reply);
    let len: usize = cs.len();
    let mut i: usize = 0;
    assert(cs@.skip(0) == cs@);
    while i < len && !is_digit(cs[i])
        invariant
            len == cs@.len(),
            i <= len,
            from_digit(cs@) == from_digit(cs@.skip(i as int)),
        decreases len - i,
    {
        assert(cs@.skip(i as int).drop_first() == cs@.skip(i + 1));
        i = i + 1;
    }
    let ghost tail = cs@.skip(i as int);
    assert(from_digit(cs@) == tail);
    let mut j: usize = i;
    while j < len && is_digit(cs[j])
        invariant
            len == cs@.len(),
            i <= j <= len,
            forall|k: int| i <= k < j ==> crate::number::is_digit(#[trigger] cs@[k]),
        decreases len - j,
    {
        j = j + 1;
    }
    let digits = slice_subrange(cs.as_slice(), i, j);
    proof {
        assert(digits@ == tail.take(j - i));
        assert forall|k: int| 0 <= k < j - i implies crate::number::is_digit(
            #[trigger] tail[k],
        ) by {
            assert(tail[k] == cs@[i + k]);
        }
        lemma_leading_digits(tail, j - i);
    }
    read_usize(digits)
}

/// The candidate that a reply chooses: numbered from 1, and 0 for none.
pub open spec fn chosen(reply: Seq<char>, cands: Seq<CandidateModel>) -> Option<CandidateModel> {
    match choice(reply) {
        Some(n) => if 0 < n <= cands.len() {
            Some(cands[n - 1])
        } else {
            None
        },
        None => None,
    }
}

/// Turn the model's reply into the chosen candidate.
pub fn pick_candidate(reply: &str, cands: &[Candidate]) -> (r: Option<Candidate>)
    ensures
        crate::seqs::opt_view(r) == chosen(reply@, crate::seqs::views(cands@)),
{
    match parse_choice(reply) {
        Some(n) => {
            if n == 0 || n > cands.len() {
                None
            } else {
                assert(crate::seqs::views(cands@)[n - 1] == cands@[n - 1]@);
                Some(cands[n - 1].clone())
            }
        },
        None => None,
    }
}

/// A chosen definition is always one of the candidates.
pub proof fn choice_is_a_candidate(reply: Seq<char>, cands: Seq<CandidateModel>)
    ensures
        chosen(reply, cands) matches Some(c) ==> cands.contains(c),
{
    if let Some(n) = choice(reply) {
        if 0 < n <= cands.len() {
            assert(cands[n - 1] == chosen(reply, cands)->0);
        }
    }
}

/// A reply that gives the number of a candidate chooses that candidate.
pub proof fn replying_its_number_chooses_a_candidate(cands: Seq<CandidateModel>, i: int)
    requires
        0 <= i < cands.len() <= usize::MAX,
    ensures
        chosen(crate::number::decimal((i + 1) as nat), cands) == Some(cands[i]),
{
    let reply = crate::number::decimal((i + 1) as nat);
    crate::number::decimal_reads_back((i + 1) as nat);
    assert(crate::number::is_digit(reply[0]));
    assert(from_digit(reply) == reply);
    lemma_leading_digits(reply, reply.len() as int);
    assert(reply.take(reply.len() as int) == reply);
}

/// How a definition is found among candidates.
#[derive(Debug)]
pub enum Resolution {
    /// There is nothing to choose from.
    Nothing,
    /// There is only one.
    Only(Candidate),
    /// The model has to be asked this.
    Ask(String),
}

/// The first step from candidates to a definition: without a choice there is
/// nothing to ask.
pub fn find_definition(symbol: &str, usage: Option<&str>, cands: &[Candidate]) -> (r: Resolution)
    ensures
        r is Nothing <==> cands@.len() == 0,
        r is Only <==> cands@.len() == 1,
        (r matches Resolution::Only(c) ==> c@ == cands@[0]@),
        (r matches Resolution::Ask(p) ==> p@ == prompt(
            symbol@,
            crate::seqs::opt_view(usage),
            crate::seqs::views(cands@),
        )),
{
    if cands.len() == 0 {
        Resolution::Nothing
    } else if cands.len() == 1 {
        Resolution::Only(cands[0].clone())
    } else {
        Resolution::Ask(build_prompt(symbol, usage, cands))
    }
}

} // verus!

//! A repository on another machine, reached through `ssh`: what the target is,
//! which commands are run there, and what their output means.

use crate::diff::{ChangedFile, DiffSource};
use crate::gotodef::claude_args;
use crate::number::{decimal_string, push_decimal, read_u16};
use crate::order::{drop_repeats, sort_names};
use crate::repo::DirEntry;
use crate::text::{
    chars_of, has_prefix, lines_of, string_of, trimmed, trimmed_end, trimmed_end_char,
};
use crate::tree::{arrange, is_listed, Found};
use vstd::prelude::*;
use vstd::slice::slice_subrange;

verus! {

broadcast use {crate::seqs::lemma_views_push, crate::seqs::lemma_views_update};

/// A parsed `ssh://[user@]host[:port]/abs/path` target.
#[derive(Debug, PartialEq, Eq)]
pub struct SshTarget {
    pub user: Option<String>,
    pub host: String,
    pub port: Option<u16>,
    /// Absolute path to the repo on the remote.
    pub path: String,
}

/// What an [`SshTarget`] holds.
#[verifier::ext_equal]
pub struct TargetModel {
    pub user: Option<Seq<char>>,
    pub host: Seq<char>,
    pub port: Option<u16>,
    pub path: Seq<char>,
}

impl View for SshTarget {
    type V = TargetModel;

    open spec fn view(&self) -> TargetModel {
        TargetModel {
            user: crate::seqs::opt_view(self.user),
            host: self.host@,
            port: self.port,
            path: self.path@,
        }
    }
}

impl Clone for SshTarget {
    fn clone(&self) -> (r: Self)
        ensures
            r@ == self@,
    {
        SshTarget {
            user: crate::review_state::copy_opt(&self.user),
            host: self.host.clone(),
            port: self.port,
            path: self.path.clone(),
        }
    }
}

/// The first place of `c` in `s`, from `from` on.
pub open spec fn first_of(s: Seq<char>, c: char, from: int) -> Option<int>
    decreases s.len() - from,
{
    if from < 0 || from >= s.len() {
        None
    } else if s[from] == c {
        Some(from)
    } else {
        first_of(s, c, from + 1)
    }
}

/// The last place of `c` among the first `n` characters of `s`.
pub open spec fn last_of(s: Seq<char>, c: char, n: int) -> Option<int>
    decreases n,
{
    if n <= 0 {
        None
    } else if s[n - 1] == c {
        Some(n - 1)
    } else {
        last_of(s, c, n - 1)
    }
}

fn find_first(cs: &[char], c: char) -> (r: Option<usize>)
    ensures
        match r {
            Some(i) => i < cs@.len() && first_of(cs@, c, 0) == Some(i as int),
            None => first_of(cs@, c, 0) is None,
        },
{
    for i in 0..cs.len()
        invariant
            first_of(cs@, c, 0) == first_of(cs@, c, i as int),
    {
        if cs[i] == c {
            return Some(i);
        }
    }
    None
}

fn find_last(cs: &[char], c: char) -> (r: Option<usize>)
    ensures
        match r {
            Some(i) => i < cs@.len() && last_of(cs@, c, cs@.len() as int) == Some(i as int),
            None => last_of(cs@, c, cs@.len() as int) is None,
        },
{
    let mut n: usize = cs.len();
    while n > 0
        invariant
            n <= cs@.len(),
            last_of(cs@, c, cs@.len() as int) == last_of(cs@, c, n as int),
        decreases n,
    {
        if cs[n - 1] == c {
            return Some(n - 1);
        }
        n = n - 1;
    }
    None
}

/// The host and the port of `host[:port]`. What follows the last colon is a
/// port only where it is a number that a port can have.
pub open spec fn host_and_port(s: Seq<char>) -> (Seq<char>, Option<u16>) {
    match last_of(s, ':', s.len() as int) {
        Some(i) => match crate::number::parse_number(s.skip(i + 1), u16::MAX as nat) {
            Some(n) => (s.take(i), Some(n as u16)),
            None => (s, None),
        },
        None => (s, None),
    }
}

/// The user and the rest of `[user@]rest`.
pub open spec fn user_and_rest(s: Seq<char>) -> (Option<Seq<char>>, Seq<char>) {
    match first_of(s, '@', 0) {
        Some(i) => (Some(s.take(i)), s.skip(i + 1)),
        None => (None, s),
    }
}

/// The target that `ssh://[user@]host[:port]/abs/path` names. The authority and
/// the host must not be empty, and the path must be more than the slash.
pub open spec fn target_of(arg: Seq<char>) -> Option<TargetModel> {
    let rest = arg.skip(6);
    if !crate::text::starts_with(arg, "ssh://"@) {
        None
    } else {
        match first_of(rest, '/', 0) {
            None => None,
            Some(slash) => {
                let (user, hostport) = user_and_rest(rest.take(slash));
                let (host, port) = host_and_port(hostport);
                if slash == 0 || rest.len() - slash < 2 || host.len() == 0 {
                    None
                } else {
                    Some(TargetModel { user, host, port, path: rest.skip(slash) })
                }
            },
        }
    }
}

/// The URL `ssh://[user@]host[:port]/abs/path` of a target.
pub open spec fn url_of(t: TargetModel) -> Seq<char> {
    "ssh://"@ + authority_of(t) + t.path
}

/// `[user@]host[:port]`.
pub open spec fn authority_of(t: TargetModel) -> Seq<char> {
    destination_of(t) + match t.port {
        Some(p) => seq![':'] + crate::number::decimal(p as nat),
        None => Seq::empty(),
    }
}

/// A target that a URL can name: the path is absolute and more than the slash,
/// the host is not empty, and no part holds what would end it or begin another.
pub open spec fn can_be_named(t: TargetModel) -> bool {
    &&& t.path.len() >= 2 && t.path[0] == '/'
    &&& t.host.len() > 0
    &&& !t.host.contains('/')
    &&& (match t.user {
        Some(u) => !u.contains('/') && !u.contains('@'),
        None => !t.host.contains('@'),
    })
    &&& t.port is None ==> host_and_port(t.host).1 is None
}

pub proof fn lemma_first_of(a: Seq<char>, c: char, b: Seq<char>, from: int)
    requires
        0 <= from <= a.len(),
        !a.contains(c),
        b.len() > 0 ==> b[0] == c,
    ensures
        first_of(a + b, c, from) == if b.len() > 0 {
            Some(a.len() as int)
        } else {
            None
        },
    decreases a.len() - from,
{
    if from < a.len() {
        assert(a.contains(a[from]));
        assert((a + b)[from] == a[from]);
        lemma_first_of(a, c, b, from + 1);
    } else if b.len() > 0 {
        assert((a + b)[from] == b[0]);
    }
}

pub proof fn lemma_last_of(a: Seq<char>, c: char, b: Seq<char>, n: int)
    requires
        0 <= n <= b.len(),
        !b.contains(c),
    ensures
        last_of(a + seq![c] + b, c, a.len() + 1 + n) == Some(a.len() as int),
    decreases n,
{
    let s = a + seq![c] + b;
    if n > 0 {
        assert(s[a.len() + n] == b[n - 1]);
        assert(b.contains(b[n - 1]));
        lemma_last_of(a, c, b, n - 1);
    } else {
        assert(s[a.len() as int] == c);
    }
}

proof fn lemma_host_and_port(t: TargetModel)
    requires
        can_be_named(t),
    ensures
        host_and_port(
            t.host + match t.port {
                Some(p) => seq![':'] + crate::number::decimal(p as nat),
                None => Seq::empty(),
            },
        ) == (t.host, t.port),
{
    match t.port {
        Some(p) => {
            let digits = crate::number::decimal(p as nat);
            let s = t.host + seq![':'] + digits;
            crate::number::decimal_reads_back(p as nat);
            assert(!digits.contains(':')) by {
                if digits.contains(':') {
                    let k = choose|k: int| 0 <= k < digits.len() && digits[k] == ':';
                    assert(crate::number::is_digit(digits[k]));
                }
            }
            lemma_last_of(t.host, ':', digits, digits.len() as int);
            assert(t.host + (seq![':'] + digits) == s);
            assert(s.skip(t.host.len() as int + 1) == digits);
            assert(s.take(t.host.len() as int) == t.host);
        },
        None => {
            assert(t.host + Seq::<char>::empty() == t.host);
        },
    }
}

/// The URL of a target is read as that target.
pub proof fn target_reads_back(t: TargetModel)
    requires
        can_be_named(t),
    ensures
        target_of(url_of(t)) == Some(t),
{
    let rest = authority_of(t) + t.path;
    let tail = match t.port {
        Some(p) => seq![':'] + crate::number::decimal(p as nat),
        None => Seq::empty(),
    };
    reveal_strlit("ssh://");
    assert(url_of(t).take(6) == "ssh://"@);
    assert(url_of(t).skip(6) == rest);
    lemma_host_and_port(t);
    assert(!tail.contains('/') && !tail.contains('@')) by {
        if t.port is Some {
            crate::number::decimal_reads_back(t.port->0 as nat);
        }
        assert forall|k: int| 0 <= k < tail.len() implies tail[k] != '/' && tail[k] != '@' by {
            if k > 0 {
                assert(crate::number::is_digit(crate::number::decimal(t.port->0 as nat)[k - 1]));
            }
        }
    }
    let authority = authority_of(t);
    assert(authority == destination_of(t) + tail);
    assert(!authority.contains('/')) by {
        if authority.contains('/') {
            let k = choose|k: int| 0 <= k < authority.len() && authority[k] == '/';
            if k >= destination_of(t).len() {
                assert(tail.contains(tail[k - destination_of(t).len()]));
            } else if let Some(u) = t.user {
                if k < u.len() {
                    assert(u.contains(u[k]));
                } else if k > u.len() {
                    assert(t.host.contains(t.host[k - u.len() - 1]));
                }
            } else {
                assert(t.host.contains(t.host[k]));
            }
        }
    }
    lemma_first_of(authority, '/', t.path, 0);
    assert(rest.take(authority.len() as int) == authority);
    assert(rest.skip(authority.len() as int) == t.path);
    match t.user {
        Some(u) => {
            let behind = seq!['@'] + t.host + tail;
            assert(authority == u + behind);
            lemma_first_of(u, '@', behind, 0);
            assert(authority.take(u.len() as int) == u);
            assert(authority.skip(u.len() as int + 1) == t.host + tail);
        },
        None => {
            assert(!authority.contains('@')) by {
                if authority.contains('@') {
                    let k = choose|k: int| 0 <= k < authority.len() && authority[k] == '@';
                    if k >= t.host.len() {
                        assert(tail.contains(tail[k - t.host.len()]));
                    } else {
                        assert(t.host.contains(t.host[k]));
                    }
                }
            }
            lemma_first_of(authority, '@', Seq::empty(), 0);
            assert(authority + Seq::<char>::empty() == authority);
        },
    }
}

/// `user@host`, or the host alone.
pub open spec fn destination_of(t: TargetModel) -> Seq<char> {
    match t.user {
        Some(u) => u.push('@') + t.host,
        None => t.host,
    }
}

impl SshTarget {
    /// Parse an `ssh://` URL. Returns None if `arg` isn't an ssh URL (so the
    /// caller can fall back to treating it as a local path). The path must be
    /// absolute (leading `/`).
    pub fn parse(arg: &str) -> (r: Option<SshTarget>)
        ensures
            crate::seqs::opt_view(r) == target_of(arg@),
    {
        let cs = chars_of(arg);
        proof {
            reveal_strlit("ssh://");
        }
        if !has_prefix(cs.as_slice(), "ssh://") {
            return None;
        }
        let rest = slice_subrange(cs.as_slice(), 6, cs.len());
        assert(rest@ == arg@.skip(6));
        let slash: usize = match find_first(rest, '/') {
            Some(i) => i,
            None => return None,
        };
        let authority = slice_subrange(rest, 0, slash);
        let path = slice_subrange(rest, slash, rest.len());
        assert(authority@ == rest@.take(slash as int));
        assert(path@ == rest@.skip(slash as int));
        if authority.len() == 0 || path.len() < 2 {
            return None;
        }
        let (user, hostport) = match find_first(authority, '@') {
            Some(i) => {
                let u = slice_subrange(authority, 0, i);
                let hp = slice_subrange(authority, i + 1, authority.len());
                assert(u@ == authority@.take(i as int));
                assert(hp@ == authority@.skip(i + 1));
                (Some(string_of(u)), hp)
            },
            None => (None, authority),
        };
        let (host, port) = match find_last(hostport, ':') {
            Some(i) => {
                let h = slice_subrange(hostport, 0, i);
                let p = slice_subrange(hostport, i + 1, hostport.len());
                assert(h@ == hostport@.take(i as int));
                assert(p@ == hostport@.skip(i + 1));
                match read_u16(p) {
                    Some(n) => (h, Some(n)),
                    None => (hostport, None),
                }
            },
            None => (hostport, None),
        };
        if host.len() == 0 {
            return None;
        }
        Some(SshTarget { user, host: string_of(host), port, path: string_of(path) })
    }

    /// The `[user@]host` SSH destination.
    pub fn destination(&self) -> (r: String)
        ensures
            r@ == destination_of(self@),
    {
        match &self.user {
            Some(u) => {
                let mut s = u.clone();
                s.push('@');
                s.append(self.host.as_str());
                s
            },
            None => self.host.clone(),
        }
    }
}

/// Inside single quotes: `s` with every single quote closed, escaped and opened
/// again.
pub open spec fn quoted_body(s: Seq<char>) -> Seq<char>
    decreases s.len(),
{
    if s.len() == 0 {
        Seq::empty()
    } else if s.last() == '\'' {
        quoted_body(s.drop_last()) + seq!['\'', '\\', '\'', '\'']
    } else {
        quoted_body(s.drop_last()).push(s.last())
    }
}

/// `s` as one word of a POSIX shell.
pub open spec fn quoted(s: Seq<char>) -> Seq<char> {
    seq!['\''] + quoted_body(s) + seq!['\'']
}

/// Single-quote a string for a POSIX remote shell: wrap in '...', escaping any
/// embedded single quote as '\''. Safe for paths/revs with spaces or quotes.
pub fn shell_quote(s: &str) -> (r: String)
    ensures
        r@ == quoted(s@),
{
    let cs = chars_of(s);
    let mut out = String::new();
    out.push('\'');
    for i in 0..cs.len()
        invariant
            cs@ == s@,
            out@ == seq!['\''] + quoted_body(s@.take(i as int)),
    {
        assert(s@.take(i + 1).drop_last() == s@.take(i as int));
        assert(s@.take(i + 1).last() == cs@[i as int]);
        let c: char = cs[i];
        if c == '\'' {
            out.push('\'');
            out.push('\\');
            out.push('\'');
            out.push('\'');
        } else {
            out.push(c);
        }
        assert(out@ == seq!['\''] + quoted_body(s@.take(i + 1)));
    }
    assert(s@.take(s@.len() as int) == s@);
    out.push('\'');
    assert(out@ == quoted(s@));
    out
}

/// `a` and then what there is of `rest`.
pub open spec fn before_rest(a: Seq<char>, rest: Option<Seq<char>>) -> Option<Seq<char>> {
    match rest {
        Some(r) => Some(a + r),
        None => None,
    }
}

/// What a POSIX shell makes of a word of quoted parts and escaped characters;
/// None where it is anything else or does not end.
pub open spec fn shell_reads(w: Seq<char>, inside: bool) -> Option<Seq<char>>
    decreases w.len(),
{
    if w.len() == 0 {
        if inside {
            None
        } else {
            Some(Seq::empty())
        }
    } else if w[0] == '\'' {
        shell_reads(w.drop_first(), !inside)
    } else if inside {
        before_rest(seq![w[0]], shell_reads(w.drop_first(), true))
    } else if w[0] == '\\' && w.len() > 1 {
        before_rest(seq![w[1]], shell_reads(w.skip(2), false))
    } else {
        None
    }
}

proof fn lemma_shell_reads_body(s: Seq<char>, rest: Seq<char>)
    ensures
        shell_reads(quoted_body(s) + rest, true) == before_rest(s, shell_reads(rest, true)),
    decreases s.len(),
{
    if s.len() == 0 {
        assert(quoted_body(s) + rest == rest);
        if let Some(r) = shell_reads(rest, true) {
            assert(s + r == r);
        }
    } else {
        let init = s.drop_last();
        let c = s.last();
        if c == '\'' {
            let escaped = seq!['\'', '\\', '\'', '\''];
            let w = escaped + rest;
            assert(quoted_body(s) + rest == quoted_body(init) + w);
            lemma_shell_reads_body(init, w);
            assert(w.drop_first() == seq!['\\', '\'', '\''] + rest);
            let w1 = w.drop_first();
            assert(w1.skip(2) == seq!['\''] + rest);
            let w2 = w1.skip(2);
            assert(w2.drop_first() == rest);
            assert(w2[0] == '\'');
            assert(shell_reads(w2, false) == shell_reads(rest, true));
            assert(w1[0] == '\\' && w1[1] == '\'');
            assert(shell_reads(w1, false) == before_rest(seq!['\''], shell_reads(rest, true)));
            assert(w[0] == '\'');
            assert(shell_reads(w, true) == before_rest(seq!['\''], shell_reads(rest, true)));
        } else {
            let w = seq![c] + rest;
            assert(quoted_body(s) + rest == quoted_body(init) + w);
            lemma_shell_reads_body(init, w);
            assert(w.drop_first() == rest);
            assert(w[0] == c);
            assert(shell_reads(w, true) == before_rest(seq![c], shell_reads(rest, true)));
        }
        if let Some(r) = shell_reads(rest, true) {
            assert(init + (seq![c] + r) == s + r);
        }
    }
}

/// A quoted text is one word to the remote shell, and the shell reads it as
/// exactly that text, whatever characters it holds.
pub proof fn shell_reads_back_what_was_quoted(s: Seq<char>)
    ensures
        shell_reads(quoted(s), false) == Some(s),
{
    let close = seq!['\''];
    let w = quoted(s);
    assert(w.drop_first() == quoted_body(s) + close);
    lemma_shell_reads_body(s, close);
    assert(close.drop_first() == Seq::<char>::empty());
    assert(shell_reads(close.drop_first(), false) == Some(Seq::<char>::empty()));
    assert(shell_reads(close, true) == Some(Seq::<char>::empty()));
    assert(s + Seq::<char>::empty() == s);
}

/// An SSH-backed repo: the target, the directory of the control socket, and the
/// local directory in which review state is mirrored.
#[derive(Debug)]
pub struct SshRepo {
    pub target: SshTarget,
    pub ctl_dir: String,
    pub state_root: String,
}

/// Each of `args` quoted, with a space before it.
pub open spec fn quoted_args(args: Seq<Seq<char>>) -> Seq<char>
    decreases args.len(),
{
    if args.len() == 0 {
        Seq::empty()
    } else {
        quoted_args(args.drop_last()).push(' ') + quoted(args.last())
    }
}

/// The remote command line that runs `program` with `args` in the repo.
pub open spec fn command_in(path: Seq<char>, program: Seq<char>, args: Seq<Seq<char>>) -> Seq<
    char,
> {
    "cd "@ + quoted(path) + " && "@ + program + quoted_args(args)
}

/// The most context lines that are asked for.
pub const MAX_CONTEXT: u32 = 1_000_000_000;

/// The arguments of `git` for a diff.
pub open spec fn diff_arguments(
    source: DiffSource,
    base: Seq<char>,
    context: u32,
    path: Option<Seq<char>>,
) -> Seq<Seq<char>> {
    let lines = if context < MAX_CONTEXT {
        context
    } else {
        MAX_CONTEXT
    };
    let head = seq![
        "diff"@,
        "--unified="@ + crate::number::decimal(lines as nat),
        match source {
            DiffSource::WorkingTree => "HEAD"@,
            DiffSource::BranchRange => base + "...HEAD"@,
        },
    ];
    match path {
        Some(p) => head + seq!["--"@, p],
        None => head,
    }
}

/// The control socket of a connection.
pub open spec fn ctl_path(dir: Seq<char>) -> Seq<char> {
    crate::review_state::path_join(dir, "ctl"@)
}

/// The options that let every call share one connection.
pub open spec fn mux_options(ctl_dir: Seq<char>) -> Seq<Seq<char>> {
    seq![
        "-o"@,
        "ControlMaster=auto"@,
        "-o"@,
        "ControlPath="@ + ctl_path(ctl_dir),
        "-o"@,
        "ControlPersist=60s"@,
        "-o"@,
        "BatchMode=yes"@,
    ]
}

/// The `-p PORT` ssh argument, or nothing for the default port.
pub open spec fn port_options(t: TargetModel) -> Seq<Seq<char>> {
    match t.port {
        Some(p) => seq!["-p"@, crate::number::decimal(p as nat)],
        None => Seq::empty(),
    }
}

/// The `-p PORT` ssh argument, or empty if the default port.
pub fn port_arg(target: &SshTarget) -> (r: Vec<String>)
    ensures
        crate::seqs::views(r@) == port_options(target@),
{
    let r = match target.port {
        Some(p) => vec!["-p".to_owned(), decimal_string(p as u64)],
        None => Vec::new(),
    };
    assert(crate::seqs::views(r@) == port_options(target@));
    r
}

/// The directory name under which the review of a remote repo is mirrored.
pub open spec fn mirror_name(t: TargetModel) -> Seq<char> {
    crate::review_state::sanitized(t.host.push('_') + without_leading(t.path, '/'))
}

/// `s` without the characters `c` at its beginning.
pub open spec fn without_leading(s: Seq<char>, c: char) -> Seq<char>
    decreases s.len(),
{
    if s.len() > 0 && s[0] == c {
        without_leading(s.drop_first(), c)
    } else {
        s
    }
}

fn drop_leading<'a>(cs: &'a [char], c: char) -> (r: &'a [char])
    ensures
        r@ == without_leading(cs@, c),
{
    let mut i: usize = 0;
    assert(cs@.skip(0) == cs@);
    while i < cs.len() && cs[i] == c
        invariant
            i <= cs@.len(),
            without_leading(cs@, c) == without_leading(cs@.skip(i as int), c),
        decreases cs@.len() - i,
    {
        assert(cs@.skip(i as int).drop_first() == cs@.skip(i + 1));
        i = i + 1;
    }
    let r = slice_subrange(cs, i, cs.len());
    assert(r@ == cs@.skip(i as int));
    r
}

fn push_all(out: &mut Vec<String>, more: Vec<String>)
    ensures
        crate::seqs::views(final(out)@) == crate::seqs::views(old(out)@) + crate::seqs::views(
            more@,
        ),
{
    let ghost a = out@;
    let ghost b = more@;
    let mut more = more;
    out.append(&mut more);
    assert(crate::seqs::views(a + b) == crate::seqs::views(a) + crate::seqs::views(b));
}

/// The name of a directory on the remote: the repo's own, or one below it.
pub open spec fn remote_path(path: Seq<char>, rel: Seq<char>) -> Seq<char> {
    if rel.len() == 0 {
        path
    } else {
        path.push('/') + rel
    }
}

/// The first line of an error output, or a word that there was none.
pub open spec fn first_line(err: Seq<char>) -> Seq<char> {
    let ls = crate::text::lines(crate::text::trim(err));
    if ls.len() > 0 {
        ls[0]
    } else {
        "(no stderr)"@
    }
}

/// The message for a remote command that failed.
pub fn failure(label: &str, stderr: &str) -> (r: String)
    ensures
        r@ == label@ + ": "@ + first_line(stderr@),
{
    let cs = chars_of(stderr);
    let body = string_of(trimmed(cs.as_slice()));
    let lines = lines_of(body.as_str());
    let ghost ls = crate::text::lines(crate::text::trim(stderr@));
    assert(lines@.len() == ls.len()) by {
        assert(crate::seqs::views(lines@).len() == lines@.len());
    }
    let mut r = label.to_owned();
    r.append(": ");
    if lines.len() > 0 {
        assert(ls[0] == lines@[0]@) by {
            assert(crate::seqs::views(lines@)[0] == lines@[0]@);
        }
        r.append(lines[0].as_str());
    } else {
        r.append("(no stderr)");
    }
    r
}

/// The branch, from what `git rev-parse --abbrev-ref HEAD` printed.
pub open spec fn branch_of(head: Seq<char>) -> Seq<char> {
    if crate::text::trim(head) == "HEAD"@ {
        "(detached)"@
    } else {
        crate::text::trim(head)
    }
}

/// The branch, from what `git rev-parse --abbrev-ref HEAD` printed.
pub fn branch(head: &str) -> (r: String)
    ensures
        r@ == branch_of(head@),
{
    let cs = chars_of(head);
    let b = string_of(trimmed(cs.as_slice()));
    if *b.as_str() == *"HEAD" {
        "(detached)".to_owned()
    } else {
        b
    }
}

/// The directory that `path` is in, or `other` where it names none.
pub open spec fn parent_of(path: Seq<char>, other: Seq<char>) -> Seq<char> {
    match last_of(path, '/', path.len() as int) {
        Some(i) => path.take(i),
        None => other,
    }
}

/// The remote command that writes `relname` below the `.purview/` of the repo.
pub open spec fn persist_line(repo: Seq<char>, relname: Seq<char>) -> Seq<char> {
    let dir = repo + "/.purview"@;
    let path = dir.push('/') + relname;
    let ignore = quoted(dir + "/.gitignore"@);
    let tmp = quoted(path + ".purview.tmp"@);
    "mkdir -p "@ + quoted(parent_of(path, dir)) + " && { [ -e "@ + ignore
        + " ] || echo '*' > "@ + ignore + "; } && cat > "@ + tmp + " && mv "@ + tmp + " "@ + quoted(
        path,
    )
}

/// The directory that the mirrors of review state are in: below the cache
/// directory, or else the home directory, or else the one for temporary files.
pub open spec fn mirror_base(
    cache: Option<Seq<char>>,
    home: Option<Seq<char>>,
    temp: Seq<char>,
) -> Seq<char> {
    let base = match cache {
        Some(c) => c,
        None => match home {
            Some(h) => crate::review_state::path_join(h, ".cache"@),
            None => temp,
        },
    };
    crate::review_state::path_join(crate::review_state::path_join(base, "purview"@), "ssh"@)
}

/// Base dir for local mirrors of remote review state.
pub fn local_state_base(cache: Option<&str>, home: Option<&str>, temp: &str) -> (r: String)
    ensures
        r@ == mirror_base(
            match cache {
                Some(c) => Some(c@),
                None => None,
            },
            match home {
                Some(h) => Some(h@),
                None => None,
            },
            temp@,
        ),
{
    let base = match cache {
        Some(c) => c.to_owned(),
        None => match home {
            Some(h) => crate::review_state::join_path(h, ".cache"),
            None => temp.to_owned(),
        },
    };
    let dir = crate::review_state::join_path(base.as_str(), "purview");
    crate::review_state::join_path(dir.as_str(), "ssh")
}

impl SshTarget {
    /// What is said when the connection could not be opened.
    pub fn unreachable_message(&self) -> (r: String)
        ensures
            r@ == "ssh: could not open connection to "@ + destination_of(self@)
                + " (check host/key)"@,
    {
        let mut s = "ssh: could not open connection to ".to_owned();
        s.append(self.destination().as_str());
        s.append(" (check host/key)");
        s
    }

    /// Checks that the path is a git work tree, by what `git rev-parse
    /// --is-inside-work-tree` printed there.
    pub fn check_work_tree(&self, out: &str) -> (r: Result<(), String>)
        ensures
            r is Ok <==> crate::text::trim(out@) == "true"@,
            r matches Err(e) ==> e@ == self@.path + " on "@ + self@.host
                + " is not a git work tree"@,
    {
        let cs = chars_of(out);
        if *string_of(trimmed(cs.as_slice())).as_str() == *"true" {
            return Ok(());
        }
        let mut s = self.path.clone();
        s.append(" on ");
        s.append(self.host.as_str());
        s.append(" is not a git work tree");
        Err(s)
    }
}

impl SshRepo {
    /// The local directory name that review state of this target is mirrored
    /// under: stable across runs, keyed by host and path.
    pub fn mirror_dir(target: &SshTarget) -> (r: String)
        ensures
            r@ == mirror_name(target@),
    {
        let mut s = target.host.clone();
        s.push('_');
        let cs = chars_of(target.path.as_str());
        s.append(string_of(drop_leading(cs.as_slice(), '/')).as_str());
        crate::review_state::sanitize_key(s.as_str())
    }

    /// ssh `-o` options enabling connection multiplexing, passed to EVERY call
    /// so they share the one master connection.
    pub fn mux_opts(&self) -> (r: Vec<String>)
        ensures
            crate::seqs::views(r@) == mux_options(self.ctl_dir@),
    {
        let ctl = crate::review_state::join_path(self.ctl_dir.as_str(), "ctl");
        let r = vec![
            "-o".to_owned(),
            "ControlMaster=auto".to_owned(),
            "-o".to_owned(),
            "ControlPath=".to_owned().concat(ctl.as_str()),
            "-o".to_owned(),
            "ControlPersist=60s".to_owned(),
            "-o".to_owned(),
            "BatchMode=yes".to_owned(),
        ];
        assert(crate::seqs::views(r@) == mux_options(self.ctl_dir@));
        r
    }

    /// The arguments of `ssh` that open the shared connection in the background.
    pub fn master_args(&self) -> (r: Vec<String>)
        ensures
            crate::seqs::views(r@) == mux_options(self.ctl_dir@) + seq![
                "-M"@,
                "-N"@,
                "-f"@,
                destination_of(self.target@),
            ] + port_options(self.target@),
    {
        let mut r = self.mux_opts();
        r.push("-M".to_owned());
        r.push("-N".to_owned());
        r.push("-f".to_owned());
        r.push(self.target.destination());
        assert(crate::seqs::views(r@) == mux_options(self.ctl_dir@) + seq![
            "-M"@,
            "-N"@,
            "-f"@,
            destination_of(self.target@),
        ]);
        push_all(&mut r, port_arg(&self.target));
        r
    }

    /// The arguments of `ssh` that run `remote_cmd` over the shared connection.
    pub fn remote_args(&self, remote_cmd: &str) -> (r: Vec<String>)
        ensures
            crate::seqs::views(r@) == mux_options(self.ctl_dir@) + port_options(self.target@)
                + seq![destination_of(self.target@), remote_cmd@],
    {
        let mut r = self.mux_opts();
        push_all(&mut r, port_arg(&self.target));
        let ghost before = crate::seqs::views(r@);
        r.push(self.target.destination());
        r.push(remote_cmd.to_owned());
        assert(crate::seqs::views(r@) == before + seq![
            destination_of(self.target@),
            remote_cmd@,
        ]);
        r
    }

    /// The arguments of `ssh` that close the shared connection.
    pub fn exit_args(&self) -> (r: Vec<String>)
        ensures
            crate::seqs::views(r@) == seq!["-o"@, "ControlPath="@ + ctl_path(self.ctl_dir@)]
                + port_options(self.target@) + seq![
                "-O"@,
                "exit"@,
                destination_of(self.target@),
            ],
    {
        let ctl = crate::review_state::join_path(self.ctl_dir.as_str(), "ctl");
        let mut r = vec![
            "-o".to_owned(),
            "ControlPath=".to_owned().concat(ctl.as_str()),
        ];
        assert(crate::seqs::views(r@) == seq!["-o"@, "ControlPath="@ + ctl_path(self.ctl_dir@)]);
        push_all(&mut r, port_arg(&self.target));
        let ghost before = crate::seqs::views(r@);
        r.push("-O".to_owned());
        r.push("exit".to_owned());
        r.push(self.target.destination());
        assert(crate::seqs::views(r@) == before + seq![
            "-O"@,
            "exit"@,
            destination_of(self.target@),
        ]);
        r
    }

    fn command(&self, program: &str, args: &[String]) -> (r: String)
        ensures
            r@ == command_in(self.target@.path, program@, crate::seqs::views(args@)),
    {
        let ghost xs = crate::seqs::views(args@);
        let mut r = "cd ".to_owned();
        r.append(shell_quote(self.target.path.as_str()).as_str());
        r.append(" && ");
        r.append(program);
        let ghost start = r@;
        assert(start + quoted_args(xs.take(0)) == start);
        for i in 0..args.len()
            invariant
                xs == crate::seqs::views(args@),
                r@ == start + quoted_args(xs.take(i as int)),
        {
            assert(xs.take(i + 1).drop_last() == xs.take(i as int));
            assert(xs.take(i + 1).last() == args@[i as int]@);
            r.push(' ');
            r.append(shell_quote(args[i].as_str()).as_str());
            assert(r@ == start + quoted_args(xs.take(i + 1)));
        }
        assert(xs.take(xs.len() as int) == xs);
        r
    }

    /// The remote command line `cd '<path>' && git <args...>`, with each git arg
    /// shell-quoted so paths/revs with spaces survive the remote shell.
    pub fn git_command(&self, args: &[String]) -> (r: String)
        ensures
            r@ == command_in(self.target@.path, "git"@, crate::seqs::views(args@)),
    {
        self.command("git", args)
    }

    /// The remote command line that runs the agent's `program` in the repo, with
    /// the args with which it is run locally.
    pub fn agent_command(&self, program: &str) -> (r: String)
        ensures
            r@ == command_in(self.target@.path, program@, crate::gotodef::agent_args(program@)),
    {
        self.command(program, claude_args(program).as_slice())
    }

    /// The git diff arguments matching `source`: working-tree-vs-HEAD, or
    /// base...HEAD three-dot. The git CLI mishandles a context as large as the
    /// "Full extent" view asks for, so it is clamped to a value larger than any
    /// real file.
    pub fn diff_args(source: DiffSource, base: &str, context: u32, path: Option<&str>) -> (r: Vec<
        String,
    >)
        ensures
            crate::seqs::views(r@) == diff_arguments(
                source,
                base@,
                context,
                crate::seqs::opt_view(path),
            ),
    {
        let lines: u32 = if context < MAX_CONTEXT {
            context
        } else {
            MAX_CONTEXT
        };
        let mut unified = "--unified=".to_owned();
        push_decimal(&mut unified, lines as u64);
        let rev = match source {
            DiffSource::WorkingTree => "HEAD".to_owned(),
            DiffSource::BranchRange => base.to_owned().concat("...HEAD"),
        };
        let mut r = vec!["diff".to_owned(), unified, rev];
        if let Some(p) = path {
            r.push("--".to_owned());
            r.push(p.to_owned());
        }
        assert(crate::seqs::views(r@) == diff_arguments(
            source,
            base@,
            context,
            crate::seqs::opt_view(path),
        ));
        r
    }

    /// The remote command that prints a file of the repo.
    pub fn read_command(&self, rel: &str) -> (r: String)
        ensures
            r@ == "cat "@ + quoted(self.target@.path.push('/') + rel@),
    {
        let mut path = self.target.path.clone();
        path.push('/');
        path.append(rel);
        "cat ".to_owned().concat(shell_quote(path.as_str()).as_str())
    }

    /// The remote command that lists a directory of the repo.
    pub fn list_command(&self, rel: &str) -> (r: String)
        ensures
            r@ == "ls -Ap "@ + quoted(remote_path(self.target@.path, rel@)),
    {
        let mut path = self.target.path.clone();
        if !rel.is_empty() {
            path.push('/');
            path.append(rel);
        }
        "ls -Ap ".to_owned().concat(shell_quote(path.as_str()).as_str())
    }

    /// The remote command that replaces a file of the repo by its standard
    /// input: into a temporary file first, which is then moved over it, so that
    /// nobody sees half a file.
    pub fn write_command(&self, rel: &str) -> (r: String)
        ensures
            ({
                let path = self.target@.path.push('/') + rel@;
                let tmp = quoted(path + ".purview.tmp"@);
                r@ == "cat > "@ + tmp + " && mv "@ + tmp + " "@ + quoted(path)
            }),
    {
        let mut path = self.target.path.clone();
        path.push('/');
        path.append(rel);
        let quoted_path = shell_quote(path.as_str());
        let tmp = shell_quote(path.concat(".purview.tmp").as_str());
        let mut r = "cat > ".to_owned();
        r.append(tmp.as_str());
        r.append(" && mv ");
        r.append(tmp.as_str());
        r.append(" ");
        r.append(quoted_path.as_str());
        r
    }

    /// The remote command that writes its standard input to `relname` below the
    /// repo's `.purview/`, which is made where it is missing and keeps itself
    /// out of the repo's history.
    pub fn persist_command(&self, relname: &str) -> (r: String)
        ensures
            r@ == persist_line(self.target@.path, relname@),
    {
        let mut dir = self.target.path.clone();
        dir.append("/.purview");
        let mut path = dir.clone();
        path.push('/');
        path.append(relname);
        let cs = chars_of(path.as_str());
        let parent = match find_last(cs.as_slice(), '/') {
            Some(i) => {
                let head = slice_subrange(cs.as_slice(), 0, i);
                assert(head@ == path@.take(i as int));
                string_of(head)
            },
            None => dir.clone(),
        };
        let ignore = shell_quote(dir.concat("/.gitignore").as_str());
        let quoted_path = shell_quote(path.as_str());
        let tmp = shell_quote(path.concat(".purview.tmp").as_str());
        let mut r = "mkdir -p ".to_owned();
        r.append(shell_quote(parent.as_str()).as_str());
        r.append(" && { [ -e ");
        r.append(ignore.as_str());
        r.append(" ] || echo '*' > ");
        r.append(ignore.as_str());
        r.append("; } && cat > ");
        r.append(tmp.as_str());
        r.append(" && mv ");
        r.append(tmp.as_str());
        r.append(" ");
        r.append(quoted_path.as_str());
        r
    }

    /// A short human label for the repo.
    pub fn label(&self) -> (r: String)
        ensures
            r@ == "ssh://"@ + self.target@.host + self.target@.path,
    {
        let mut r = "ssh://".to_owned();
        r.append(self.target.host.as_str());
        r.append(self.target.path.as_str());
        r
    }
}

/// What the lines of a `ls -Ap` say: a slash at the end marks a directory, and
/// the repository's own directory is passed over.
pub open spec fn found_in(lines: Seq<Seq<char>>) -> Seq<crate::tree::FoundModel>
    decreases lines.len(),
{
    if lines.len() == 0 {
        Seq::empty()
    } else {
        let before = found_in(lines.drop_last());
        let line = crate::text::trim_end(lines.last());
        let name = crate::text::trim_end_char(line, '/');
        if line.len() == 0 || name == ".git"@ {
            before
        } else {
            before.push(
                crate::tree::FoundModel { name, is_dir: line.len() > 0 && line.last() == '/' },
            )
        }
    }
}

/// The listing of the directory `rel`, from what [`SshRepo::list_command`]
/// printed.
pub fn list_dir(rel: &str, out: &str) -> (r: Vec<DirEntry>)
    ensures
        crate::seqs::views(r@) == crate::tree::listing(
            rel@,
            found_in(crate::text::lines(out@)),
        ),
{
    let lines = lines_of(out);
    let ghost ls = crate::text::lines(out@);
    let mut found: Vec<Found> = Vec::new();
    assert(crate::seqs::views(found@) == Seq::<crate::tree::FoundModel>::empty());
    for i in 0..lines.len()
        invariant
            ls == crate::seqs::views(lines@),
            crate::seqs::views(found@) == found_in(ls.take(i as int)),
    {
        assert(ls.take(i + 1).drop_last() == ls.take(i as int));
        assert(ls.take(i + 1).last() == lines@[i as int]@);
        let cs = chars_of(lines[i].as_str());
        let line = trimmed_end(cs.as_slice());
        if line.len() > 0 {
            let is_dir = line[line.len() - 1] == '/';
            let name = string_of(trimmed_end_char(line, '/'));
            if is_listed(name.as_str()) {
                found.push(Found { name, is_dir });
            }
        }
    }
    assert(ls.take(ls.len() as int) == ls);
    arrange(rel, found.as_slice())
}

/// All files of the repo, from what `git ls-files` printed: in order, each once,
/// and no more than `cap`; and whether there were more.
pub fn list_all_files(out: &str, cap: usize) -> (r: (Vec<String>, bool))
    ensures
        ({
            let all = crate::order::without_repeats(
                crate::order::in_order(crate::text::lines(out@)),
            );
            &&& r.1 == (all.len() > cap)
            &&& crate::seqs::views(r.0@) == if all.len() > cap {
                all.take(cap as int)
            } else {
                all
            }
        }),
        crate::seqs::views(r.0@).no_duplicates(),
        r.1 ==> r.0@.len() == cap,
        forall|n: Seq<char>| #[trigger]
            crate::seqs::views(r.0@).contains(n) ==> crate::text::lines(out@).contains(n),
        !r.1 ==> forall|n: Seq<char>| #[trigger]
            crate::text::lines(out@).contains(n) ==> crate::seqs::views(r.0@).contains(n),
{
    let mut lines = lines_of(out);
    sort_names(&mut lines);
    let mut all = drop_repeats(lines);
    let ghost names = crate::seqs::views(all@);
    assert(names.len() == all@.len());
    let truncated = all.len() > cap;
    all.truncate(cap);
    assert(crate::seqs::views(all@) == if names.len() > cap {
        names.take(cap as int)
    } else {
        names
    });
    proof {
        let printed = crate::text::lines(out@);
        crate::remote_laws::every_file_is_listed_once(printed, Seq::empty());
        assert forall|n: Seq<char>| #[trigger] names.contains(n) <==> printed.contains(n) by {
            crate::remote_laws::every_file_is_listed_once(printed, n);
        }
        assert forall|n: Seq<char>| #[trigger]
            crate::seqs::views(all@).contains(n) implies names.contains(n) by {
            let k = choose|k: int|
                0 <= k < crate::seqs::views(all@).len() && crate::seqs::views(all@)[k] == n;
            assert(names[k] == n);
        }
    }
    (all, truncated)
}

/// The untracked files that belong to a diff: those that `git ls-files` printed,
/// or only the one that was asked for.
pub open spec fn untracked_names(lines: Seq<Seq<char>>, path: Option<Seq<char>>) -> Seq<Seq<char>>
    decreases lines.len(),
{
    if lines.len() == 0 {
        Seq::empty()
    } else {
        let before = untracked_names(lines.drop_last(), path);
        let name = crate::text::trim(lines.last());
        if name.len() == 0 || (path matches Some(p) && p != name) {
            before
        } else {
            before.push(name)
        }
    }
}

/// The untracked files whose content has to be read for a diff. `git diff`
/// leaves them out; a comparison of branches has none.
pub fn untracked_to_read(source: DiffSource, listing: &str, path: Option<&str>) -> (r: Vec<String>)
    ensures
        crate::seqs::views(r@) == match source {
            DiffSource::WorkingTree => untracked_names(
                crate::text::lines(listing@),
                crate::seqs::opt_view(path),
            ),
            DiffSource::BranchRange => Seq::empty(),
        },
{
    let mut r: Vec<String> = Vec::new();
    assert(crate::seqs::views(r@) == Seq::<Seq<char>>::empty());
    if source == DiffSource::BranchRange {
        return r;
    }
    let lines = lines_of(listing);
    let ghost ls = crate::text::lines(listing@);
    for i in 0..lines.len()
        invariant
            ls == crate::seqs::views(lines@),
            crate::seqs::views(r@) == untracked_names(
                ls.take(i as int),
                crate::seqs::opt_view(path),
            ),
    {
        assert(ls.take(i + 1).drop_last() == ls.take(i as int));
        assert(ls.take(i + 1).last() == lines@[i as int]@);
        let cs = chars_of(lines[i].as_str());
        let name = string_of(trimmed(cs.as_slice()));
        let wanted = match path {
            Some(p) => *p == *name.as_str(),
            None => true,
        };
        if !name.as_str().is_empty() && wanted {
            r.push(name);
        }
    }
    assert(ls.take(ls.len() as int) == ls);
    r
}

/// The untracked files that could be read, as changed files.
pub open spec fn untracked_files(
    names: Seq<Seq<char>>,
    contents: Seq<Option<Seq<char>>>,
    n: nat,
) -> Seq<crate::diff::FileModel>
    decreases n,
{
    if n == 0 {
        Seq::empty()
    } else {
        let before = untracked_files(names, contents, (n - 1) as nat);
        match contents[n - 1] {
            Some(c) => before.push(crate::diff::untracked_file(names[n - 1], c)),
            None => before,
        }
    }
}

/// The contents of optional strings.
pub open spec fn opt_views(v: Seq<Option<String>>) -> Seq<Option<Seq<char>>> {
    v.map_values(|o: Option<String>| crate::seqs::opt_view(o))
}

/// Every line of every content has a number.
pub open spec fn contents_fit(contents: Seq<Option<Seq<char>>>) -> bool {
    forall|i: int|
        0 <= i < contents.len() ==> (#[trigger] contents[i] matches Some(c)
            ==> crate::text::line_count(c) < u32::MAX)
}

/// Puts a diff together from what the remote printed: the branch, the patch, and
/// the content of each untracked file, as far as it could be read. None where a
/// line number would not fit in 32 bits.
pub fn compute_full(
    head: &str,
    patch: &str,
    names: &[String],
    contents: &[Option<String>],
) -> (r: Option<(String, Vec<ChangedFile>)>)
    requires
        names@.len() == contents@.len(),
    ensures
        r is Some <==> crate::diff::files_fit(crate::diff::patch_files(patch@)) && contents_fit(
            opt_views(contents@),
        ),
        r matches Some((b, files)) ==> b@ == branch_of(head@) && crate::seqs::views(files@)
            == crate::diff::numbered(crate::diff::patch_files(patch@)) + untracked_files(
            crate::seqs::views(names@),
            opt_views(contents@),
            names@.len(),
        ),
{
    let ghost ns = crate::seqs::views(names@);
    let ghost cs = opt_views(contents@);
    let mut files = match crate::diff::try_parse_unified_patch(patch) {
        Some(f) => f,
        None => return None,
    };
    let ghost in_patch = crate::seqs::views(files@);
    assert(in_patch + untracked_files(ns, cs, 0) == in_patch);
    for i in 0..names.len()
        invariant
            names@.len() == contents@.len(),
            ns == crate::seqs::views(names@),
            cs == opt_views(contents@),
            crate::diff::files_fit(crate::diff::patch_files(patch@)),
            forall|k: int|
                0 <= k < i ==> (#[trigger] cs[k] matches Some(c) ==> crate::text::line_count(c)
                    < u32::MAX),
            crate::seqs::views(files@) == in_patch + untracked_files(ns, cs, i as nat),
    {
        assert(cs[i as int] == crate::seqs::opt_view(contents@[i as int]));
        assert(ns[i as int] == names@[i as int]@);
        if let Some(c) = &contents[i] {
            let lines = lines_of(c.as_str());
            assert(crate::seqs::views(lines@).len() == lines@.len());
            if lines.len() as u64 >= u32::MAX as u64 {
                assert(!contents_fit(cs)) by {
                    assert(cs[i as int] matches Some(x) && crate::text::line_count(x) >= u32::MAX);
                }
                return None;
            }
            let f = crate::diff::untracked_as_changed_file(names[i].as_str(), c.as_str());
            files.push(f);
            assert(crate::seqs::views(files@) == in_patch + untracked_files(ns, cs, (i + 1) as nat));
        }
    }
    Some((branch(head), files))
}

} // verus!

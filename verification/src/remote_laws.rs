//! What is said to a remote machine, and what is read of its answers.

use crate::diff::{DiffSource, FileModel};
use crate::mcp::Tool;
use crate::repo::ssh::TargetModel;
use crate::review_state::FileStateModel;
use crate::tree::FoundModel;
use vstd::prelude::*;

verus! {

/// The URL of a target, written out.
pub proof fn a_url_is_written_out(t: TargetModel)
    ensures
        crate::repo::ssh::url_of(t) == "ssh://"@ + (match t.user {
            Some(u) => u + "@"@,
            None => ""@,
        }) + t.host + (match t.port {
            Some(p) => ":"@ + crate::number::decimal(p as nat),
            None => ""@,
        }) + t.path,
        crate::repo::ssh::destination_of(t) == (match t.user {
            Some(u) => u + "@"@,
            None => ""@,
        }) + t.host,
{
    reveal_strlit("@");
    reveal_strlit(":");
    reveal_strlit("");
    let user = match t.user {
        Some(u) => u + "@"@,
        None => ""@,
    };
    let port = match t.port {
        Some(p) => ":"@ + crate::number::decimal(p as nat),
        None => ""@,
    };
    assert(crate::repo::ssh::destination_of(t) == user + t.host);
    assert(crate::repo::ssh::authority_of(t) == user + t.host + port);
    assert("ssh://"@ + (user + t.host + port) + t.path == "ssh://"@ + user + t.host + port + t.path);
}

/// Nothing else names a target: not what begins otherwise, and not what has no
/// host, or no path but the slash.
pub proof fn other_arguments_name_no_target(arg: Seq<char>, host: Seq<char>)
    requires
        !host.contains('/'),
    ensures
        !crate::text::starts_with(arg, "ssh://"@) ==> crate::repo::ssh::target_of(arg) is None,
        crate::repo::ssh::target_of("ssh://"@ + host) is None,
        crate::repo::ssh::target_of("ssh://"@ + host + "/"@) is None,
        crate::repo::ssh::target_of("ssh:///"@ + arg) is None,
{
    let none = Seq::<char>::empty();
    reveal_strlit("ssh://");
    reveal_strlit("ssh:///");
    reveal_strlit("/");
    let a = "ssh://"@ + host;
    assert(a.skip(6) == host + none);
    crate::repo::ssh::lemma_first_of(host, '/', none, 0);
    let b = "ssh://"@ + host + "/"@;
    assert(b.skip(6) == host + "/"@);
    crate::repo::ssh::lemma_first_of(host, '/', "/"@, 0);
    let c = "ssh:///"@ + arg;
    assert(c.skip(6) == none + ("/"@ + arg));
    crate::repo::ssh::lemma_first_of(none, '/', "/"@ + arg, 0);
}

/// Arguments are put behind the command one after the other, each with a blank
/// before it and quoted.
pub proof fn arguments_are_quoted_one_by_one(args: Seq<Seq<char>>, a: Seq<char>)
    ensures
        crate::repo::ssh::quoted_args(Seq::empty()) == ""@,
        crate::repo::ssh::quoted_args(args.push(a)) == crate::repo::ssh::quoted_args(args) + " "@
            + crate::repo::ssh::quoted(a),
{
    reveal_strlit(" ");
    reveal_strlit("");
    assert(args.push(a).drop_last() == args);
    assert(crate::repo::ssh::quoted_args(args).push(' ') == crate::repo::ssh::quoted_args(args)
        + " "@);
}

/// A word in single quotes is read as it was written: a quote in it is closed,
/// escaped and opened again, and every other character stands for itself.
pub proof fn quoting_escapes_only_quotes(s: Seq<char>, c: char)
    ensures
        c != '\'' ==> crate::repo::ssh::quoted_body(s.push(c)) == crate::repo::ssh::quoted_body(
            s,
        ).push(c),
        crate::repo::ssh::quoted_body(s.push('\'')) == crate::repo::ssh::quoted_body(s) + "'\\''"@,
        crate::repo::ssh::quoted(s) == "'"@ + crate::repo::ssh::quoted_body(s) + "'"@,
        crate::repo::ssh::quoted_body(Seq::empty()) == Seq::<char>::empty(),
{
    reveal_strlit("'\\''");
    reveal_strlit("'");
    assert(s.push(c).drop_last() == s);
    assert(s.push('\'').drop_last() == s);
    assert("'\\''"@ == seq!['\'', '\\', '\'', '\'']);
    assert("'"@ == seq!['\'']);
}

/// A command is run in the directory of the repo.
pub proof fn a_command_is_run_in_the_repo(
    path: Seq<char>,
    program: Seq<char>,
    args: Seq<Seq<char>>,
)
    ensures
        crate::repo::ssh::command_in(path, program, args) == "cd "@ + crate::repo::ssh::quoted(path)
            + " && "@ + program + crate::repo::ssh::quoted_args(args),
{
}

/// What a diff is asked for: the working tree against its head, or the head
/// against where it left the base; with the context that is wanted, up to a
/// thousand million lines; of one path, or of all.
pub proof fn a_diff_is_asked_for_its_comparison(
    source: DiffSource,
    base: Seq<char>,
    context: u32,
    path: Option<Seq<char>>,
)
    ensures
        ({
            let args = crate::repo::ssh::diff_arguments(source, base, context, path);
            &&& args.len() == if path is Some {
                5int
            } else {
                3
            }
            &&& args[0] == "diff"@
            &&& context <= 1_000_000_000 ==> args[1] == "--unified="@ + crate::number::decimal(
                context as nat,
            )
            &&& context > 1_000_000_000 ==> args[1] == "--unified="@ + crate::number::decimal(
                1_000_000_000,
            )
            &&& source == DiffSource::WorkingTree ==> args[2] == "HEAD"@
            &&& source == DiffSource::BranchRange ==> args[2] == base + "...HEAD"@
            &&& path matches Some(p) ==> args[3] == "--"@ && args[4] == p
        }),
{
}

/// Every call goes through the one connection of its directory, without asking
/// for a password, and to the port of the target where it has one.
pub proof fn calls_share_a_connection(dir: Seq<char>, t: TargetModel)
    requires
        dir.len() > 0,
        dir.last() != '/',
    ensures
        crate::repo::ssh::mux_options(dir) == seq![
            "-o"@,
            "ControlMaster=auto"@,
            "-o"@,
            "ControlPath="@ + dir + "/ctl"@,
            "-o"@,
            "ControlPersist=60s"@,
            "-o"@,
            "BatchMode=yes"@,
        ],
        t.port is None ==> crate::repo::ssh::port_options(t).len() == 0,
        t.port matches Some(p) ==> crate::repo::ssh::port_options(t) == seq![
            "-p"@,
            crate::number::decimal(p as nat),
        ],
{
    reveal_strlit("ctl");
    reveal_strlit("/ctl");
    assert("ControlPath="@ + (dir.push('/') + "ctl"@) == "ControlPath="@ + dir + "/ctl"@);
}

proof fn lemma_leading(slashes: Seq<char>, rest: Seq<char>)
    requires
        forall|i: int| 0 <= i < slashes.len() ==> slashes[i] == '/',
        rest.len() == 0 || rest[0] != '/',
    ensures
        crate::repo::ssh::without_leading(slashes + rest, '/') == rest,
    decreases slashes.len(),
{
    if slashes.len() > 0 {
        assert((slashes + rest)[0] == slashes[0]);
        assert((slashes + rest).drop_first() == slashes.drop_first() + rest);
        lemma_leading(slashes.drop_first(), rest);
    } else {
        assert(slashes + rest == rest);
    }
}

/// The mirror of a remote repo is named by its host and its path, without the
/// slashes that the path begins with.
pub proof fn a_mirror_is_named_by_host_and_path(
    t: TargetModel,
    slashes: Seq<char>,
    rest: Seq<char>,
)
    requires
        t.path == slashes + rest,
        forall|i: int| 0 <= i < slashes.len() ==> slashes[i] == '/',
        rest.len() == 0 || rest[0] != '/',
    ensures
        crate::repo::ssh::mirror_name(t) == crate::review_state::sanitized(t.host + "_"@ + rest),
{
    reveal_strlit("_");
    lemma_leading(slashes, rest);
    assert(t.host.push('_') + rest == t.host + "_"@ + rest);
}

/// Mirrors are kept in the cache directory, or else below the home directory, or
/// else where temporary files are.
pub proof fn mirrors_are_kept_in_the_cache(c: Seq<char>, h: Option<Seq<char>>, t: Seq<char>)
    requires
        c.len() > 0,
        c.last() != '/',
    ensures
        crate::repo::ssh::mirror_base(Some(c), h, t) == c + "/purview/ssh"@,
        crate::repo::ssh::mirror_base(None, Some(c), t) == c + "/.cache/purview/ssh"@,
        crate::repo::ssh::mirror_base(None, None, c) == c + "/purview/ssh"@,
{
    reveal_strlit("purview");
    reveal_strlit("ssh");
    reveal_strlit(".cache");
    reveal_strlit("/purview/ssh");
    reveal_strlit("/.cache/purview/ssh");
    let below = crate::review_state::path_join(c, "purview"@);
    assert(below.last() == 'w');
    assert(crate::repo::ssh::mirror_base(Some(c), h, t) == c + "/purview/ssh"@);
    let cache = crate::review_state::path_join(c, ".cache"@);
    assert(cache.last() == 'e');
    let inner = crate::review_state::path_join(cache, "purview"@);
    assert(inner.last() == 'w');
    assert(crate::repo::ssh::mirror_base(None, Some(c), t) == c + "/.cache/purview/ssh"@);
    assert(crate::repo::ssh::mirror_base(None, None, c) == c + "/purview/ssh"@);
}

/// A directory of a remote repo is the repo's own, or stands below it.
pub proof fn remote_directories_stand_below_the_repo(path: Seq<char>, rel: Seq<char>)
    ensures
        crate::repo::ssh::remote_path(path, Seq::empty()) == path,
        rel.len() > 0 ==> crate::repo::ssh::remote_path(path, rel) == path + "/"@ + rel,
{
    reveal_strlit("/");
    assert(path.push('/') + rel == path + "/"@ + rel);
}

/// The branch is what was printed, without white space; a head on no branch is
/// said to be detached.
pub proof fn the_branch_is_what_was_printed(head: Seq<char>)
    ensures
        crate::text::trim(head) == "HEAD"@ ==> crate::repo::ssh::branch_of(head) == "(detached)"@,
        crate::text::trim(head) != "HEAD"@ ==> crate::repo::ssh::branch_of(head)
            == crate::text::trim(head),
{
}

/// Of an error output the first line is shown.
pub proof fn the_first_line_of_an_error_is_shown(err: Seq<char>)
    ensures
        ({
            let ls = crate::text::lines(crate::text::trim(err));
            &&& ls.len() > 0 ==> crate::repo::ssh::first_line(err) == ls[0]
            &&& ls.len() == 0 ==> crate::repo::ssh::first_line(err) == "(no stderr)"@
        }),
{
}

proof fn lemma_no_slash(path: Seq<char>, n: int)
    requires
        0 <= n <= path.len(),
        !path.contains('/'),
    ensures
        crate::repo::ssh::last_of(path, '/', n) is None,
    decreases n,
{
    if n > 0 {
        assert(path.contains(path[n - 1]));
        lemma_no_slash(path, n - 1);
    }
}

/// The directory of a file is what stands before the last slash.
pub proof fn a_directory_stands_before_the_last_slash(
    dir: Seq<char>,
    name: Seq<char>,
    other: Seq<char>,
)
    requires
        !name.contains('/'),
    ensures
        crate::repo::ssh::parent_of(dir + "/"@ + name, other) == dir,
        crate::repo::ssh::parent_of(name, other) == other,
{
    reveal_strlit("/");
    assert("/"@ == seq!['/']);
    let s = dir + seq!['/'] + name;
    crate::repo::ssh::lemma_last_of(dir, '/', name, name.len() as int);
    assert(s.take(dir.len() as int) == dir);
    lemma_no_slash(name, name.len() as int);
}

/// A file of the review is written beside its place and then moved there, in a
/// directory that is made first and that the repo ignores.
pub proof fn a_file_is_written_and_then_moved(repo: Seq<char>, dir: Seq<char>, name: Seq<char>)
    requires
        !name.contains('/'),
    ensures
        ({
            let own = repo + "/.purview"@;
            let path = own + "/"@ + dir + "/"@ + name;
            let ignore = crate::repo::ssh::quoted(own + "/.gitignore"@);
            let tmp = crate::repo::ssh::quoted(path + ".purview.tmp"@);
            crate::repo::ssh::persist_line(repo, dir + "/"@ + name) == "mkdir -p "@
                + crate::repo::ssh::quoted(own + "/"@ + dir) + " && { [ -e "@ + ignore
                + " ] || echo '*' > "@ + ignore + "; } && cat > "@ + tmp + " && mv "@ + tmp + " "@
                + crate::repo::ssh::quoted(path)
        }),
        ({
            let own = repo + "/.purview"@;
            let path = own + "/"@ + name;
            let ignore = crate::repo::ssh::quoted(own + "/.gitignore"@);
            let tmp = crate::repo::ssh::quoted(path + ".purview.tmp"@);
            crate::repo::ssh::persist_line(repo, name) == "mkdir -p "@ + crate::repo::ssh::quoted(
                own,
            ) + " && { [ -e "@ + ignore + " ] || echo '*' > "@ + ignore + "; } && cat > "@ + tmp
                + " && mv "@ + tmp + " "@ + crate::repo::ssh::quoted(path)
        }),
{
    reveal_strlit("/");
    let own = repo + "/.purview"@;
    let below = own + "/"@ + dir;
    assert(own.push('/') + (dir + "/"@ + name) == below + "/"@ + name);
    assert(own.push('/') + name == own + "/"@ + name);
    a_directory_stands_before_the_last_slash(below, name, own);
    a_directory_stands_before_the_last_slash(own, name, own);
}

/// A listed line: the name, with a slash behind a directory.
pub open spec fn listed_line(f: FoundModel) -> Seq<char> {
    if f.is_dir {
        f.name + "/"@
    } else {
        f.name
    }
}

/// A name as a line of a listing can have it: it does not end in white space or
/// a slash.
pub open spec fn can_be_listed(f: FoundModel) -> bool {
    f.name.len() > 0 && !crate::text::is_white(f.name.last()) && f.name.last() != '/'
}

/// Everything that is listed is found, under its name, directory or file; only
/// the repository's own directory is passed over.
pub proof fn everything_that_is_listed_is_found(found: Seq<FoundModel>)
    requires
        forall|i: int| 0 <= i < found.len() ==> can_be_listed(#[trigger] found[i]),
    ensures
        crate::repo::ssh::found_in(found.map_values(|f: FoundModel| listed_line(f)))
            == found.filter(|f: FoundModel| f.name != ".git"@),
    decreases found.len(),
{
    let line = |f: FoundModel| listed_line(f);
    reveal(Seq::filter);
    reveal_strlit("/");
    if found.len() > 0 {
        let front = found.drop_last();
        let f = found.last();
        let s = listed_line(f);
        assert forall|i: int| 0 <= i < front.len() implies can_be_listed(#[trigger] front[i]) by {
            assert(front[i] == found[i]);
        }
        everything_that_is_listed_is_found(front);
        assert(found.map_values(line).drop_last() == front.map_values(line));
        assert(found.map_values(line).last() == s);
        assert(can_be_listed(found[found.len() - 1]));
        assert(!crate::text::is_white('/'));
        assert(s.last() == if f.is_dir {
            '/'
        } else {
            f.name.last()
        });
        assert(crate::text::trim_end(s) == s);
        assert(crate::text::trim_end_char(s, '/') == f.name) by {
            if f.is_dir {
                assert(s.drop_last() == f.name);
                reveal_with_fuel(crate::text::trim_end_char, 2);
            }
        }
        assert((FoundModel { name: f.name, is_dir: s.last() == '/' }) == f);
    }
}

/// Every file that was printed is listed, once, and nothing else is.
pub proof fn every_file_is_listed_once(printed: Seq<Seq<char>>, n: Seq<char>)
    ensures
        ({
            let listed = crate::order::without_repeats(crate::order::in_order(printed));
            &&& listed.no_duplicates()
            &&& listed.contains(n) <==> printed.contains(n)
        }),
{
    broadcast use vstd::seq_lib::group_to_multiset_ensures;

    let sorted = crate::order::in_order(printed);
    let order = crate::order::name_order();
    crate::order::in_order_sorts(printed);
    crate::order::names_are_totally_ordered();
    assert forall|i: int, j: int| 0 <= i <= j < sorted.len() implies crate::order::at_most(
        #[trigger] sorted[i],
        #[trigger] sorted[j],
    ) by {
        if i < j {
            assert(order(sorted[i], sorted[j]));
        } else {
            assert(order(sorted[i], sorted[i]));
        }
    }
    assert(printed.contains(n) <==> printed.to_multiset().contains(n));
    assert(sorted.contains(n) <==> sorted.to_multiset().contains(n));
    crate::state_laws::repeats_are_left_out(sorted, n);
}

proof fn lemma_white_end(t: Seq<char>, white: Seq<char>)
    requires
        forall|i: int| 0 <= i < white.len() ==> crate::text::is_white(#[trigger] white[i]),
        t.len() == 0 || !crate::text::is_white(t.last()),
    ensures
        crate::text::trim_end(t + white) == t,
    decreases white.len(),
{
    let s = t + white;
    if white.len() > 0 {
        assert(s.last() == white[white.len() - 1]);
        assert(s.drop_last() == t + white.drop_last());
        lemma_white_end(t, white.drop_last());
    } else {
        assert(s == t);
    }
}

proof fn lemma_slash_end(name: Seq<char>, slashes: Seq<char>)
    requires
        forall|i: int| 0 <= i < slashes.len() ==> slashes[i] == '/',
        name.len() == 0 || name.last() != '/',
    ensures
        crate::text::trim_end_char(name + slashes, '/') == name,
    decreases slashes.len(),
{
    let s = name + slashes;
    if slashes.len() > 0 {
        assert(s.last() == slashes[slashes.len() - 1]);
        assert(s.drop_last() == name + slashes.drop_last());
        lemma_slash_end(name, slashes.drop_last());
    } else {
        assert(s == name);
    }
}

/// A listing is read line by line. What a line names is found, with slashes
/// behind it as a directory and without as a file; white space at the end of a
/// line is no part of it, a line of nothing else names nothing, and the
/// repository's own directory is passed over.
pub proof fn a_listing_is_read_line_by_line(
    lines: Seq<Seq<char>>,
    name: Seq<char>,
    slashes: Seq<char>,
    white: Seq<char>,
)
    requires
        forall|i: int| 0 <= i < slashes.len() ==> slashes[i] == '/',
        forall|i: int| 0 <= i < white.len() ==> crate::text::is_white(#[trigger] white[i]),
        name.len() > 0,
        name.last() != '/',
        slashes.len() == 0 ==> !crate::text::is_white(name.last()),
    ensures
        name != ".git"@ ==> crate::repo::ssh::found_in(lines.push(name + slashes + white))
            == crate::repo::ssh::found_in(lines).push(
            FoundModel { name, is_dir: slashes.len() > 0 },
        ),
        name == ".git"@ ==> crate::repo::ssh::found_in(lines.push(name + slashes + white))
            == crate::repo::ssh::found_in(lines),
        crate::repo::ssh::found_in(lines.push(white)) == crate::repo::ssh::found_in(lines),
{
    let t = name + slashes;
    let none = Seq::<char>::empty();
    assert(t.last() == if slashes.len() > 0 {
        '/'
    } else {
        name.last()
    }) by {
        if slashes.len() > 0 {
            assert(t.last() == slashes[slashes.len() - 1]);
        } else {
            assert(t == name);
        }
    }
    assert(!crate::text::is_white('/'));
    lemma_white_end(t, white);
    lemma_slash_end(name, slashes);
    lemma_white_end(none, white);
    assert(none + white == white);
    assert(lines.push(t + white).drop_last() == lines);
    assert(lines.push(white).drop_last() == lines);
}

/// All untracked files that are listed belong to a diff of everything, and to
/// that of a path the one with this path; white space around a name is no part of
/// it, and a line of nothing else names no file.
pub proof fn untracked_files_belong_to_the_diff(lines: Seq<Seq<char>>, p: Seq<char>)
    ensures
        ({
            let names = lines.map_values(|l: Seq<char>| crate::text::trim(l)).filter(
                |n: Seq<char>| n.len() > 0,
            );
            &&& crate::repo::ssh::untracked_names(lines, None) == names
            &&& crate::repo::ssh::untracked_names(lines, Some(p)) == names.filter(
                |n: Seq<char>| n == p,
            )
        }),
    decreases lines.len(),
{
    let trim = |l: Seq<char>| crate::text::trim(l);
    let named = |n: Seq<char>| n.len() > 0;
    reveal(Seq::filter);
    if lines.len() > 0 {
        let front = lines.drop_last();
        let last = crate::text::trim(lines.last());
        untracked_files_belong_to_the_diff(front, p);
        assert(lines.map_values(trim).drop_last() == front.map_values(trim));
        assert(lines.map_values(trim).last() == last);
        let before = front.map_values(trim).filter(named);
        if named(last) {
            assert(lines.map_values(trim).filter(named) == before.push(last));
            assert(before.push(last).drop_last() == before);
        }
    }
}

/// The untracked files that were read are shown, in order: one more file adds
/// itself, with all its lines, or nothing where it could not be read.
pub proof fn untracked_files_that_were_read_are_shown(
    names: Seq<Seq<char>>,
    contents: Seq<Option<Seq<char>>>,
    name: Seq<char>,
    content: Seq<char>,
)
    requires
        names.len() == contents.len(),
    ensures
        ({
            let n = names.len();
            let shown: Seq<FileModel> = crate::repo::ssh::untracked_files(names, contents, n);
            &&& crate::repo::ssh::untracked_files(
                names.push(name),
                contents.push(Some(content)),
                n + 1,
            ) == shown.push(crate::diff::untracked_file(name, content))
            &&& crate::repo::ssh::untracked_files(names.push(name), contents.push(None), n + 1)
                == shown
        }),
        crate::repo::ssh::untracked_files(names, contents, 0).len() == 0,
{
    let n = names.len();
    lemma_untracked_front(names, contents, name, Some(content), n);
    lemma_untracked_front(names, contents, name, None, n);
}

proof fn lemma_untracked_front(
    names: Seq<Seq<char>>,
    contents: Seq<Option<Seq<char>>>,
    name: Seq<char>,
    content: Option<Seq<char>>,
    n: nat,
)
    requires
        n <= names.len() == contents.len(),
    ensures
        crate::repo::ssh::untracked_files(names.push(name), contents.push(content), n)
            == crate::repo::ssh::untracked_files(names, contents, n),
    decreases n,
{
    if n > 0 {
        lemma_untracked_front(names, contents, name, content, (n - 1) as nat);
    }
}

/// The default base is the upstream, without white space; where there is none it
/// is the first of main, master, develop and trunk that there is, and main where
/// there is none of them.
pub proof fn the_default_base_is_the_upstream(
    upstream: Option<Seq<char>>,
    a: bool,
    b: bool,
    c: bool,
    d: bool,
)
    ensures
        ({
            let base = crate::repo::default_base(upstream, seq![a, b, c, d]);
            let known = upstream matches Some(u) && exists|i: int|
                0 <= i < u.len() && !crate::text::is_white(#[trigger] u[i]);
            &&& known ==> base == crate::text::trim(upstream->0)
            &&& !known && a ==> base == "main"@
            &&& !known && !a && b ==> base == "master"@
            &&& !known && !a && !b && c ==> base == "develop"@
            &&& !known && !a && !b && !c && d ==> base == "trunk"@
            &&& !known && !a && !b && !c && !d ==> base == "main"@
        }),
{
    if let Some(u) = upstream {
        crate::text_laws::blank_is_nothing_but_white_space(u);
    }
    let r = seq![a, b, c, d];
    reveal_with_fuel(crate::repo::first_resolving, 5);
    assert(r.len() == 4 && r[0] == a && r[1] == b && r[2] == c && r[3] == d);
    assert(crate::repo::base_names().len() == 4);
}

/// A reply can be made to a hunk that the review has, under the path of its file
/// and its header, and to no other.
pub proof fn replies_are_made_to_hunks_of_the_review(
    files: Seq<FileStateModel>,
    i: int,
    j: int,
    file: Seq<char>,
    header: Seq<char>,
)
    ensures
        0 <= i < files.len() && 0 <= j < files[i].hunks.len() ==> crate::mcp::has_hunk(
            files,
            files[i].path,
            files[i].hunks[j].header,
        ),
        (forall|i: int| 0 <= i < files.len() ==> (#[trigger] files[i]).path != file)
            ==> !crate::mcp::has_hunk(files, file, header),
        (forall|i: int, j: int|
            0 <= i < files.len() && 0 <= j < files[i].hunks.len() ==> (
            #[trigger] files[i].hunks[j]).header != header) ==> !crate::mcp::has_hunk(
            files,
            file,
            header,
        ),
{
}

/// The tools go by these names, and by no others.
pub proof fn tools_go_by_their_names(name: Seq<char>)
    ensures
        crate::mcp::tool_named("get_review_state"@) == Some(Tool::GetReviewState),
        crate::mcp::tool_named("get_report"@) == Some(Tool::GetReport),
        crate::mcp::tool_named("list_rejected"@) == Some(Tool::ListRejected),
        crate::mcp::tool_named("reply_to_comment"@) == Some(Tool::ReplyToComment),
        crate::mcp::tool_named(name) is Some <==> name == "get_review_state"@ || name
            == "get_report"@ || name == "list_rejected"@ || name == "reply_to_comment"@,
{
    reveal_strlit("get_review_state");
    reveal_strlit("get_report");
    reveal_strlit("list_rejected");
    reveal_strlit("reply_to_comment");
    assert("get_review_state"@.len() == 16 && "get_report"@.len() == 10 && "list_rejected"@.len()
        == 13 && "reply_to_comment"@.len() == 16);
    assert("get_review_state"@[0] == 'g' && "reply_to_comment"@[0] == 'r');
}

} // verus!

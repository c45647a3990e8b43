//! Slash-separated paths: their file names and extensions.

use crate::text::{chars_of, cut, string_of, Sep};
use vstd::prelude::*;
use vstd::slice::slice_subrange;

verus! {

/// The last component of a path that names something: empty components and `.`
/// are passed over, and `..` names nothing.
pub open spec fn file_name(parts: Seq<Seq<char>>) -> Option<Seq<char>>
    decreases parts.len(),
{
    if parts.len() == 0 {
        None
    } else if parts.last().len() == 0 || parts.last() == seq!['.'] {
        file_name(parts.drop_last())
    } else if parts.last() == seq!['.', '.'] {
        None
    } else {
        Some(parts.last())
    }
}

/// Where the last dot stands.
pub open spec fn last_dot(s: Seq<char>) -> Option<int>
    decreases s.len(),
{
    if s.len() == 0 {
        None
    } else if s.last() == '.' {
        Some(s.len() - 1)
    } else {
        last_dot(s.drop_last())
    }
}

/// What follows the last dot of the file name, if that dot does not begin it.
pub open spec fn extension(path: Seq<char>) -> Seq<char> {
    match file_name(crate::text::split(path, '/')) {
        Some(name) => match last_dot(name) {
            Some(k) if k > 0 => name.skip(k + 1),
            _ => Seq::empty(),
        },
        None => Seq::empty(),
    }
}

/// What follows the last slash.
pub open spec fn base_name(path: Seq<char>) -> Seq<char> {
    crate::text::split(path, '/').last()
}

/// What follows the last slash of a path.
pub fn base_name_of(path: &str) -> (r: String)
    ensures
        r@ == base_name(path@),
{
    let cs = chars_of(path);
    let cuts = cut(cs.as_slice(), Sep::Char('/'));
    let last: usize = cuts.len() - 1;
    assert(cuts@[last as int].0 <= cuts@[last as int].1);
    string_of(slice_subrange(cs.as_slice(), cuts[last].0, cuts[last].1))
}

/// The extension of a slash-separated path; empty where it has none.
pub fn extension_of(path: &str) -> (r: String)
    ensures
        r@ == extension(path@),
{
    let cs = chars_of(path);
    let cuts = cut(cs.as_slice(), Sep::Char('/'));
    let ghost parts = crate::text::split(path@, '/');
    let mut n: usize = cuts.len();
    assert(parts.take(n as int) == parts);
    while n > 0
        invariant
            cs@ == path@,
            parts == crate::text::split(path@, '/'),
            n <= cuts@.len(),
            cuts@.len() == parts.len(),
            forall|k: int|
                0 <= k < cuts@.len() ==> {
                    &&& (#[trigger] cuts@[k]).0 <= cuts@[k].1 <= cs@.len()
                    &&& cs@.subrange(cuts@[k].0 as int, cuts@[k].1 as int) == parts[k]
                },
            file_name(parts) == file_name(parts.take(n as int)),
        decreases n,
    {
        let from: usize = cuts[n - 1].0;
        let to: usize = cuts[n - 1].1;
        let ghost name = parts[n - 1];
        assert(parts.take(n as int).last() == name);
        assert(parts.take(n as int).drop_last() == parts.take(n - 1));
        assert(cs@.subrange(from as int, to as int) == name);
        assert(forall|k: int| from <= k < to ==> #[trigger] cs@[k] == name[k - from]);
        let len: usize = to - from;
        let dot = len >= 1 && cs[from] == '.';
        assert(dot ==> name[0] == '.');
        assert((len == 1 && dot) == (name == seq!['.'])) by {
            assert(seq!['.'].len() == 1 && seq!['.'][0] == '.');
            if len == 1 && dot {
                assert(name =~= seq!['.']);
            }
        }
        if len == 0 || (len == 1 && dot) {
            n = n - 1;
        } else {
            let dots = len == 2 && dot && cs[from + 1] == '.';
            assert(dots == (name == seq!['.', '.'])) by {
                let two = seq!['.', '.'];
                assert(two.len() == 2 && two[0] == '.' && two[1] == '.');
                if len == 2 {
                    assert(name[0] == cs@[from as int] && name[1] == cs@[from + 1]);
                    if dots {
                        assert(name =~= two);
                    }
                }
            }
            if dots {
                return String::new();
            }
            let mut k: usize = to;
            assert(name.take(len as int) == name);
            while k > from
                invariant
                    cs@ == path@,
                    parts == crate::text::split(path@, '/'),
                    from <= k <= to <= cs@.len(),
                    name == cs@.subrange(from as int, to as int),
                    file_name(parts) == Some(name),
                    last_dot(name) == last_dot(name.take(k - from)),
                decreases k,
            {
                let ghost head = name.take(k - from);
                assert(head.last() == cs@[k - 1]);
                assert(head.drop_last() == name.take(k - from - 1));
                if cs[k - 1] == '.' {
                    if k - 1 > from {
                        assert(name.skip(k - from) == cs@.subrange(k as int, to as int));
                        return string_of(slice_subrange(cs.as_slice(), k, to));
                    }
                    return String::new();
                }
                k = k - 1;
            }
            return String::new();
        }
    }
    String::new()
}

} // verus!

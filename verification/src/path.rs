//! Paths as text, with the Unix meaning of `std::path`: `/` separates
//! components and a path that starts with `/` is absolute.

use vstd::prelude::*;

use crate::text::from_chars;
use crate::text::lemma_pieces_free_of_sep;
use crate::text::lemma_pieces_last;
use crate::text::lemma_pieces_single;
use crate::text::pieces;
use crate::text::push_char;
use crate::text::range_to_string;
use crate::text::to_chars;

verus! {

/// Whether `p` is an absolute path.
pub open spec fn is_absolute(p: Seq<char>) -> bool {
    p.len() > 0 && p[0] == '/'
}

/// `base` joined with `p` (`Path::join`): an absolute `p` replaces `base`;
/// otherwise `p` is appended, after a `/` when `base` is not empty and does
/// not already end with one.
pub open spec fn joined(base: Seq<char>, p: Seq<char>) -> Seq<char> {
    if is_absolute(p) {
        p
    } else if base.len() > 0 && base.last() != '/' {
        base + seq!['/'] + p
    } else {
        base + p
    }
}

/// Joins `path` onto `base`.
pub fn join(base: &str, path: &str) -> (joined_path: String)
    ensures
        joined_path@ == joined(base@, path@),
{
    let b = to_chars(base);
    let p = to_chars(path);
    if p.len() > 0 && p[0] == '/' {
        return from_chars(p.as_slice());
    }
    let mut out = from_chars(b.as_slice());
    if b.len() > 0 && b[b.len() - 1] != '/' {
        push_char(&mut out, '/');
    }
    out.append(path);
    out
}

/// Resolves a relative path from the project directory and preserves
/// absolute paths; the project directory is absolute, and so is the result.
pub fn resolve_from_project(project: &str, path: &str) -> (resolved: String)
    requires
        is_absolute(project@),
    ensures
        resolved@ == joined(project@, path@),
        is_absolute(resolved@),
        is_absolute(path@) ==> resolved@ == path@,
{
    let resolved = join(project, path);
    assert(is_absolute(path@) || resolved@[0] == project@[0]);
    resolved
}

/// The last of `parts` that names something: not empty and not `.`.
pub open spec fn last_named(parts: Seq<Seq<char>>) -> Option<Seq<char>>
    decreases parts.len(),
{
    if parts.len() == 0 {
        None
    } else if parts.last().len() == 0 || parts.last() == seq!['.'] {
        last_named(parts.drop_last())
    } else {
        Some(parts.last())
    }
}

/// The final component of `p` (`Path::file_name`): `None` when the path has
/// no named component or ends in `..`.
pub open spec fn file_name_of(p: Seq<char>) -> Option<Seq<char>> {
    match last_named(pieces(p, '/')) {
        Some(c) => if c == seq!['.', '.'] {
            None
        } else {
            Some(c)
        },
        None => None,
    }
}

/// The final component of `path`, as `Path::file_name` gives it.
pub fn file_name(path: &str) -> (name: Option<String>)
    ensures
        match name {
            Some(n) => file_name_of(path@) == Some(n@),
            None => file_name_of(path@) is None,
        },
{
    let v = to_chars(path);
    let mut end = v.len();
    assert(v@.subrange(0, v@.len() as int) == v@);
    loop
        invariant
            v@ == path@,
            end <= v@.len(),
            last_named(pieces(v@, '/')) == last_named(
                pieces(v@.subrange(0, end as int), '/'),
            ),
        decreases end,
    {
        let ghost s = v@.subrange(0, end as int);
        let mut start = end;
        while start > 0 && v[start - 1] != '/'
            invariant
                start <= end <= v@.len(),
                forall|j: int| start <= j < end ==> v@[j] != '/',
            decreases start,
        {
            start -= 1;
        }
        let ghost piece = v@.subrange(start as int, end as int);
        assert(s.subrange(start as int, end as int) == piece);
        let named = !(start == end || (end - start == 1 && v[start] == '.'));
        assert(named == !(piece.len() == 0 || piece == seq!['.'])) by {
            if end - start == 1 {
                assert(piece =~= seq![v@[start as int]]);
                if v@[start as int] == '.' {
                    assert(piece =~= seq!['.']);
                } else {
                    assert(piece[0] != seq!['.'][0]);
                }
            } else if piece == seq!['.'] {
                assert(piece.len() == 1);
            }
        }
        if start == 0 {
            proof {
                lemma_pieces_single(s, '/');
                assert(seq![s].drop_last() == Seq::<Seq<char>>::empty());
                assert(last_named(Seq::<Seq<char>>::empty()) is None);
                assert(pieces(s, '/').last() == piece);
            }
            if !named {
                return None;
            }
        } else {
            proof {
                lemma_pieces_last(s, '/', start as int);
                assert(s.subrange(0, start - 1) == v@.subrange(0, start - 1));
                assert(pieces(s, '/').drop_last() == pieces(v@.subrange(0, start - 1), '/'));
                assert(pieces(s, '/').last() == piece);
            }
        }
        if named {
            if end - start == 2 && v[start] == '.' && v[start + 1] == '.' {
                assert(piece =~= seq!['.', '.']);
                return None;
            }
            assert(piece != seq!['.', '.']) by {
                if piece == seq!['.', '.'] {
                    assert(piece.len() == 2 && piece[0] == '.' && piece[1] == '.');
                }
            }
            assert(last_named(pieces(s, '/')) == Some(piece));
            return Some(range_to_string(v.as_slice(), start, end));
        }
        end = start - 1;
    }
}

/// Whether `s` holds no `/`.
pub open spec fn unseparated(s: Seq<char>) -> bool {
    forall|i: int| 0 <= i < s.len() ==> #[trigger] s[i] != '/'
}

proof fn lemma_last_named_unseparated(parts: Seq<Seq<char>>)
    requires
        forall|k: int| 0 <= k < parts.len() ==> unseparated(#[trigger] parts[k]),
    ensures
        last_named(parts) matches Some(n) ==> unseparated(n),
    decreases parts.len(),
{
    if parts.len() > 0 {
        assert(unseparated(parts[parts.len() - 1]));
        let init = parts.drop_last();
        assert forall|k: int| 0 <= k < init.len() implies unseparated(#[trigger] init[k]) by {
            assert(init[k] == parts[k]);
        }
        lemma_last_named_unseparated(init);
    }
}

/// A file name is a single component: it holds no `/`.
pub proof fn lemma_file_name_unseparated(p: Seq<char>)
    ensures
        file_name_of(p) matches Some(n) ==> unseparated(n),
{
    lemma_pieces_free_of_sep(p, '/');
    let parts = pieces(p, '/');
    assert forall|k: int| 0 <= k < parts.len() implies unseparated(#[trigger] parts[k]) by {
        assert forall|i: int| 0 <= i < parts[k].len() implies #[trigger] parts[k][i] != '/' by {
            assert(parts[k][i] != '/');
        }
    }
    lemma_last_named_unseparated(parts);
}

/// A relative path joined onto `base` stays under `base`.
pub proof fn lemma_joined_under_base(base: Seq<char>, p: Seq<char>)
    requires
        !is_absolute(p),
    ensures
        joined(base, p).len() >= base.len(),
        joined(base, p).subrange(0, base.len() as int) == base,
{
    let j = joined(base, p);
    if base.len() > 0 && base.last() != '/' {
        assert(j == base + (seq!['/'] + p));
    }
    assert(j.subrange(0, base.len() as int) =~= base);
}

} // verus!

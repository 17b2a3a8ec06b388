//! Relative paths: which paths stay below the directory they are joined to,
//! and which paths name the same place below it.

use crate::text::same_text;
use vstd::prelude::*;
use vstd::string::StringExecFns;

verus! {

/// The path has a component `..` that starts at position `i`.
pub open spec fn climbs_at(path: Seq<char>, i: int) -> bool {
    &&& 0 <= i
    &&& i + 2 <= path.len()
    &&& path[i] == '.'
    &&& path[i + 1] == '.'
    &&& (i == 0 || path[i - 1] == '/')
    &&& (i + 2 == path.len() || path[i + 2] == '/')
}

/// The path is relative and never steps up: it does not start with a slash
/// and none of its slash-delimited components is `..`. Joined to a
/// directory, such a path names something below that directory.
pub open spec fn confined(path: Seq<char>) -> bool {
    &&& !(path.len() > 0 && path[0] == '/')
    &&& forall|i: int| !climbs_at(path, i)
}

/// What has been read of the component that is being scanned.
#[derive(Clone, Copy, PartialEq, Eq, Structural)]
enum Component {
    /// Nothing yet.
    Empty,
    /// A single dot.
    Dot,
    /// Two dots.
    DotDot,
    /// Anything else.
    Other,
}

/// Whether a path stays below the directory it is joined to.
pub fn is_confined(path: &str) -> (ok: bool)
    ensures
        ok == confined(path@),
{
    let n = path.unicode_len();
    let mut seen = Component::Empty;
    let mut position: usize = 0;
    let ghost mut start: int = 0;
    for c in it: path.chars()
        invariant
            it.seq() == path@,
            n == path@.len(),
            position == it.index(),
            0 <= start <= position,
            start == 0 || path@[start - 1] == '/',
            forall|k: int| start <= k < position ==> path@[k] != '/',
            position > 0 ==> path@[0] != '/',
            forall|i: int| i + 2 < position ==> !climbs_at(path@, i),
            match seen {
                Component::Empty => start == position,
                Component::Dot => start == position - 1 && path@[start] == '.',
                Component::DotDot => start == position - 2 && path@[start] == '.' && path@[start
                    + 1] == '.',
                Component::Other => start < position && !(position - start <= 2 && forall|k: int|
                    start <= k < position ==> path@[k] == '.'),
            },
    {
        if c == '/' {
            if position == 0 {
                return false;
            }
            match seen {
                Component::DotDot => {
                    assert(climbs_at(path@, position - 2));
                    return false;
                },
                _ => {},
            }
            assert(!climbs_at(path@, position - 2)) by {
                if climbs_at(path@, position - 2) {
                    if start < position - 2 {
                        assert(path@[position - 3] != '/');
                    }
                }
            }
            seen = Component::Empty;
            proof {
                start = position + 1;
            }
        } else {
            assert(!climbs_at(path@, position - 2));
            seen =
            match (seen, c == '.') {
                (Component::Empty, true) => Component::Dot,
                (Component::Dot, true) => Component::DotDot,
                _ => Component::Other,
            };
        }
        position += 1;
    }
    match seen {
        Component::DotDot => {
            assert(climbs_at(path@, n - 2));
            false
        },
        _ => {
            assert forall|i: int| !climbs_at(path@, i) by {
                if climbs_at(path@, i) {
                    if i + 2 == n {
                        if start < n - 2 {
                            assert(path@[n - 3] != '/');
                        }
                    }
                }
            }
            true
        },
    }
}

/// The parts of a path: what stands before, between and after its slashes.
/// A path without a slash is its own single part.
pub open spec fn components(path: Seq<char>) -> Seq<Seq<char>>
    decreases path.len(),
{
    if path.len() == 0 {
        seq![Seq::empty()]
    } else if path.last() == '/' {
        components(path.drop_last()).push(Seq::empty())
    } else {
        let before = components(path.drop_last());
        before.drop_last().push(before.last().push(path.last()))
    }
}

/// The part names a step of a path: it is neither empty nor the single dot
/// that stands for the directory it is met in.
pub open spec fn names_step(part: Seq<char>) -> bool {
    part.len() > 0 && part != seq!['.']
}

/// A path with one more part: a part that names no step adds nothing, and a
/// slash goes between two steps.
pub open spec fn with_part(before: Seq<char>, part: Seq<char>) -> Seq<char> {
    if !names_step(part) {
        before
    } else if before.len() == 0 {
        part
    } else {
        before + seq!['/'] + part
    }
}

/// The steps among `parts`, joined by single slashes.
pub open spec fn joined(parts: Seq<Seq<char>>) -> Seq<char>
    decreases parts.len(),
{
    if parts.len() == 0 {
        Seq::empty()
    } else {
        with_part(joined(parts.drop_last()), parts.last())
    }
}

/// The plain form of a path: its steps joined by single slashes, with no
/// slash at either end. Two paths with the same plain form name the same
/// place below the directory they are joined to: `./a//b/` is `a/b`. The
/// plain form of a path that names the directory itself is empty. A step
/// `..` is kept as it is.
pub open spec fn canonical(path: Seq<char>) -> Seq<char> {
    joined(components(path))
}

/// The path is in its plain form and names something below the directory.
pub open spec fn is_plain(path: Seq<char>) -> bool {
    path.len() > 0 && canonical(path) == path
}

/// The path names a file below the directory it is joined to: it stays
/// below the directory, names something there, and does not end in a slash,
/// which would name a directory.
pub open spec fn names_file(path: Seq<char>) -> bool {
    confined(path) && canonical(path).len() > 0 && path.last() != '/'
}

/// Appends a part to a path in its plain form.
fn push_part(before: String, part: &str) -> (path: String)
    ensures
        path@ == with_part(before@, part@),
{
    proof {
        reveal_strlit(".");
        reveal_strlit("/");
        assert("."@ =~= seq!['.']);
        assert("/"@ =~= seq!['/']);
    }
    if part.is_empty() || same_text(part, ".") {
        before
    } else if before.as_str().is_empty() {
        String::from_str(part)
    } else {
        let mut path = before;
        path.append("/");
        path.append(part);
        path
    }
}

/// Returns the plain form of a path.
pub fn canonicalize(path: &str) -> (plain: String)
    ensures
        plain@ == canonical(path@),
{
    let n = path.unicode_len();
    let mut plain = String::from_str("");
    let mut start: usize = 0;
    let mut position: usize = 0;
    proof {
        reveal_strlit("");
        assert(path@.take(0) =~= Seq::empty());
        assert(components(path@.take(0)).drop_last() =~= Seq::empty());
        assert(path@.subrange(0, 0) =~= Seq::empty());
    }
    for c in it: path.chars()
        invariant
            it.seq() == path@,
            n == path@.len(),
            position == it.index(),
            start <= position,
            components(path@.take(position as int)).len() > 0,
            components(path@.take(position as int)).last() == path@.subrange(
                start as int,
                position as int,
            ),
            plain@ == joined(components(path@.take(position as int)).drop_last()),
    {
        let ghost read = path@.take(position as int);
        let ghost next = path@.take(position as int + 1);
        proof {
            assert(next.drop_last() =~= read);
            assert(next.last() == c);
        }
        if c == '/' {
            let part = path.substring_char(start, position);
            plain = push_part(plain, part);
            start = position + 1;
            proof {
                assert(components(next).drop_last() =~= components(read));
                assert(path@.subrange(start as int, start as int) =~= Seq::empty());
            }
        } else {
            proof {
                assert(components(next).drop_last() =~= components(read).drop_last());
                assert(path@.subrange(start as int, position as int).push(c) =~= path@.subrange(
                    start as int,
                    position as int + 1,
                ));
            }
        }
        position += 1;
    }
    assert(path@.take(n as int) =~= path@);
    push_part(plain, path.substring_char(start, n))
}

/// Whether a path names a file below the directory it is joined to.
pub fn is_file_name(path: &str) -> (ok: bool)
    ensures
        ok == names_file(path@),
{
    let n = path.unicode_len();
    if n == 0 {
        proof {
            assert(path@ =~= Seq::empty());
            assert(components(path@).drop_last() =~= Seq::empty());
            assert(joined(components(path@).drop_last()) =~= Seq::empty());
        }
        return false;
    }
    is_confined(path) && !canonicalize(path).as_str().is_empty() && path.get_char(n - 1) != '/'
}

/// The parts of a path hold no slash.
pub proof fn lemma_components_hold_no_slash(path: Seq<char>)
    ensures
        components(path).len() > 0,
        forall|i: int| 0 <= i < components(path).len() ==> !(#[trigger] components(path)[i]).contains('/'),
    decreases path.len(),
{
    if path.len() > 0 {
        lemma_components_hold_no_slash(path.drop_last());
        let before = components(path.drop_last());
        if path.last() != '/' {
            let grown = before.last().push(path.last());
            assert forall|k: int| 0 <= k < grown.len() implies grown[k] != '/' by {
                if k < before.last().len() {
                    assert(before.last().contains(grown[k]));
                }
            }
        }
    }
}

/// A text without a slash is a single part.
proof fn lemma_single_part(part: Seq<char>)
    requires
        !part.contains('/'),
    ensures
        components(part) == seq![part],
    decreases part.len(),
{
    if part.len() == 0 {
        assert(part =~= Seq::empty());
    } else {
        assert(part.contains(part.last()));
        assert forall|k: int| 0 <= k < part.drop_last().len() implies part.drop_last()[k]
            != '/' by {
            assert(part.contains(part[k]));
        }
        lemma_single_part(part.drop_last());
        assert(part.drop_last().push(part.last()) =~= part);
        assert(seq![part.drop_last()].drop_last() =~= Seq::empty());
        assert(Seq::<Seq<char>>::empty().push(part) =~= seq![part]);
    }
}

/// A slash and a text without a slash add one part.
proof fn lemma_part_after_slash(before: Seq<char>, part: Seq<char>)
    requires
        !part.contains('/'),
    ensures
        components(before + seq!['/'] + part) == components(before).push(part),
    decreases part.len(),
{
    let whole = before + seq!['/'] + part;
    if part.len() == 0 {
        assert(whole.drop_last() =~= before);
        assert(part =~= Seq::empty());
    } else {
        let shorter = part.drop_last();
        assert(part.contains(part.last()));
        assert forall|k: int| 0 <= k < shorter.len() implies shorter[k] != '/' by {
            assert(part.contains(part[k]));
        }
        lemma_part_after_slash(before, shorter);
        assert(whole.drop_last() =~= before + seq!['/'] + shorter);
        assert(whole.last() == part.last());
        assert(components(before).push(shorter).drop_last() =~= components(before));
        assert(shorter.push(part.last()) =~= part);
    }
}

/// Joined steps come apart into the same steps again.
proof fn lemma_joined_is_plain(parts: Seq<Seq<char>>)
    requires
        forall|i: int| 0 <= i < parts.len() ==> !(#[trigger] parts[i]).contains('/'),
    ensures
        canonical(joined(parts)) == joined(parts),
    decreases parts.len(),
{
    if parts.len() == 0 {
        assert(components(Seq::<char>::empty()).drop_last() =~= Seq::empty());
        assert(joined(components(Seq::<char>::empty()).drop_last()) =~= Seq::empty());
    } else {
        let rest = parts.drop_last();
        let part = parts.last();
        let before = joined(rest);
        assert forall|i: int| 0 <= i < rest.len() implies !(#[trigger] rest[i]).contains('/') by {
            assert(rest[i] == parts[i]);
        }
        lemma_joined_is_plain(rest);
        if names_step(part) {
            if before.len() == 0 {
                lemma_single_part(part);
                assert(seq![part].drop_last() =~= Seq::empty());
                assert(joined(seq![part].drop_last()) =~= Seq::empty());
            } else {
                lemma_part_after_slash(before, part);
                assert(components(before).push(part).drop_last() =~= components(before));
            }
        }
    }
}

/// A single step is a path in its plain form.
pub proof fn lemma_step_is_plain(step: Seq<char>)
    requires
        names_step(step),
        !step.contains('/'),
    ensures
        is_plain(step),
{
    lemma_single_part(step);
    assert(seq![step].drop_last() =~= Seq::empty());
    assert(joined(seq![step].drop_last()) =~= Seq::empty());
}

/// A path in its plain form stays so when a slash and a step are added.
pub proof fn lemma_plain_with_step(path: Seq<char>, step: Seq<char>)
    requires
        is_plain(path),
        names_step(step),
        !step.contains('/'),
    ensures
        is_plain(path + seq!['/'] + step),
{
    lemma_part_after_slash(path, step);
    assert(components(path).push(step).drop_last() =~= components(path));
}

/// The plain form of a path is its own plain form.
pub proof fn lemma_canonical_is_plain(path: Seq<char>)
    ensures
        canonical(canonical(path)) == canonical(path),
{
    lemma_components_hold_no_slash(path);
    lemma_joined_is_plain(components(path));
}

} // verus!

//! Paths of files by the rules of Unix: texts whose components are separated by slashes,
//! where a path that begins with a slash starts at the root directory.
//!
//! Paths are compared and resolved as texts; nothing here looks at a file system, so links
//! in it are not followed.

use vstd::prelude::*;
use vstd::slice::slice_subrange;

use crate::text::{
    chars_of, equals, law_pieces_free_of_pattern, law_pieces_of_joined_texts, lemma_find,
    lemma_some_piece, matches_at, pieces, same_texts, split, texts,
};

verus! {

/// Whether the path starts at the root directory.
pub open spec fn is_absolute(path: Seq<char>) -> bool {
    path.len() > 0 && path[0] == '/'
}

/// `path` as seen from the directory `base`.
/// An absolute path stays what it is.
pub open spec fn joined(base: Seq<char>, path: Seq<char>) -> Seq<char> {
    if is_absolute(path) {
        path
    } else if base.len() == 0 || base.last() == '/' {
        base + path
    } else {
        base.push('/') + path
    }
}

/// What stands between the slashes, without empty names and names of the directory itself.
pub open spec fn names(parts: Seq<Seq<char>>) -> Seq<Seq<char>> {
    parts.filter(|part: Seq<char>| part.len() > 0 && part != "."@)
}

/// The component that says where a path starts: the root directory or, where the path
/// says so itself, the current one.
pub open spec fn start(path: Seq<char>) -> Seq<Seq<char>> {
    if is_absolute(path) {
        seq!["/"@]
    } else if pieces(path, "/"@)[0] == "."@ {
        seq!["."@]
    } else {
        Seq::empty()
    }
}

/// The components of a path.
pub open spec fn components(path: Seq<char>) -> Seq<Seq<char>> {
    start(path) + names(pieces(path, "/"@))
}

/// Whether the components of `base` are the first ones of `path`.
/// What follows them may still lead out of `base`.
pub open spec fn begins_with(path: Seq<char>, base: Seq<char>) -> bool {
    components(base).is_prefix_of(components(path))
}

/// The given components after each `..` has taken back the name before it.
/// Above the root directory there is only the root directory.
pub open spec fn resolved(parts: Seq<Seq<char>>) -> Seq<Seq<char>>
    decreases parts.len(),
{
    if parts.len() == 0 {
        Seq::empty()
    } else {
        let before = resolved(parts.drop_last());
        let part = parts.last();
        if part == "."@ {
            before
        } else if part != ".."@ || before.len() == 0 || before.last() == ".."@ {
            before.push(part)
        } else if before.last() == "/"@ {
            before
        } else {
            before.drop_last()
        }
    }
}

/// Whether `path` begins with `base` and leads to something inside of it: when both are
/// resolved, `path` still begins with `base`, and what follows does not lead up.
pub open spec fn is_inside(path: Seq<char>, base: Seq<char>) -> bool {
    let outer = resolved(components(base));
    let whole = resolved(components(path));
    &&& begins_with(path, base)
    &&& is_absolute(path) ==> is_absolute(base)
    &&& outer.is_prefix_of(whole)
    &&& forall|i: int| outer.len() <= i < whole.len() ==> #[trigger] whole[i] != ".."@
}

/// How many directories below its start the given components lead: each `..` leads up by
/// one, and each name but that of the directory itself leads down by one.
pub open spec fn depth(parts: Seq<Seq<char>>) -> int
    decreases parts.len(),
{
    if parts.len() == 0 {
        0
    } else {
        depth(parts.drop_last()) + if parts.last() == ".."@ {
            -1int
        } else if parts.last() == "."@ {
            0
        } else {
            1
        }
    }
}

/// Whether the given components never lead above their start: no beginning of them holds
/// more `..` than names.
pub open spec fn stays_below(parts: Seq<Seq<char>>) -> bool {
    forall|k: int| 0 <= k <= parts.len() ==> depth(#[trigger] parts.take(k)) >= 0
}

/// `path` as seen from the directory `base`.
pub fn join(base: &str, path: &str) -> (r: String)
    ensures
        r@ == joined(base@, path@),
{
    let text = chars_of(path);
    if text.len() > 0 && text[0] == '/' {
        return path.to_owned();
    }
    let dir = chars_of(base);
    let mut out = base.to_owned();
    if dir.len() > 0 && dir[dir.len() - 1] != '/' {
        out.push('/');
    }
    out.append(path);
    out
}

/// The components of a path.
fn split_components<'a>(path: &'a [char]) -> (r: Vec<&'a [char]>)
    ensures
        texts(r@) == components(path@),
{
    let slash = chars_of("/");
    proof {
        reveal_strlit("/");
        lemma_some_piece(path@, "/"@);
    }
    let parts = split(path, slash.as_slice());
    assert(texts(parts@)[0] == parts@[0]@);
    let mut out: Vec<&'a [char]> = Vec::new();
    if path.len() > 0 && path[0] == '/' {
        let root = slice_subrange(path, 0, 1);
        assert(root@ == "/"@);
        out.push(root);
        assert(texts(out@) == seq!["/"@]);
    } else if equals(parts[0], ".") {
        out.push(parts[0]);
        assert(texts(out@) == seq!["."@]);
    }
    assert(texts(out@) == start(path@));
    let ghost all = texts(parts@);
    let mut i: usize = 0;
    assert(names(all.take(0)) == Seq::<Seq<char>>::empty()) by {
        reveal(Seq::filter);
    }
    assert(texts(out@) == start(path@) + names(all.take(0)));
    while i < parts.len()
        invariant
            i <= parts@.len(),
            all == texts(parts@),
            texts(out@) == start(path@) + names(all.take(i as int)),
        decreases parts@.len() - i,
    {
        let ghost before = out@;
        let part = parts[i];
        assert(all[i as int] == part@);
        assert(all.take(i + 1).drop_last() == all.take(i as int));
        if part.len() > 0 && !equals(part, ".") {
            out.push(part);
            assert(texts(out@) == texts(before).push(part@));
        }
        assert(texts(out@) == start(path@) + names(all.take(i + 1))) by {
            reveal(Seq::filter);
        }
        i = i + 1;
    }
    assert(all.take(i as int) == all);
    out
}

/// Whether the parts of `outer` are the first ones of `inner`.
fn has_prefix(inner: &Vec<&[char]>, outer: &Vec<&[char]>) -> (r: bool)
    ensures
        r == texts(outer@).is_prefix_of(texts(inner@)),
{
    let ghost whole = texts(inner@);
    let ghost prefix = texts(outer@);
    if outer.len() > inner.len() {
        return false;
    }
    let mut i: usize = 0;
    while i < outer.len()
        invariant
            i <= outer@.len() <= inner@.len(),
            whole == texts(inner@),
            prefix == texts(outer@),
            forall|j: int| 0 <= j < i ==> prefix[j] == whole[j],
        decreases outer@.len() - i,
    {
        assert(whole[i as int] == inner@[i as int]@ && prefix[i as int] == outer@[i as int]@);
        if !same_texts(inner[i], outer[i]) {
            assert(whole.subrange(0, prefix.len() as int)[i as int] != prefix[i as int]);
            return false;
        }
        i = i + 1;
    }
    true
}

/// The given components after each `..` has taken back the name before it.
fn resolve<'a>(parts: &Vec<&'a [char]>) -> (r: Vec<&'a [char]>)
    ensures
        texts(r@) == resolved(texts(parts@)),
{
    let ghost all = texts(parts@);
    let mut out: Vec<&'a [char]> = Vec::new();
    let mut i: usize = 0;
    assert(texts(out@) == resolved(all.take(0)));
    while i < parts.len()
        invariant
            i <= parts@.len(),
            all == texts(parts@),
            texts(out@) == resolved(all.take(i as int)),
        decreases parts@.len() - i,
    {
        let ghost before = out@;
        let part = parts[i];
        let size: usize = out.len();
        assert(all[i as int] == part@);
        assert(all.take(i + 1).drop_last() == all.take(i as int));
        if size > 0 {
            assert(texts(before).last() == before[size - 1]@);
        }
        if !equals(part, ".") {
            if !equals(part, "..") || size == 0 || equals(out[size - 1], "..") {
                out.push(part);
                assert(texts(out@) == texts(before).push(part@));
            } else if !equals(out[size - 1], "/") {
                out.pop();
                assert(texts(out@) == texts(before).drop_last());
            }
        }
        i = i + 1;
    }
    assert(all.take(i as int) == all);
    out
}

/// Whether the components of `base` are the first ones of `path`.
pub fn starts_with(path: &str, base: &str) -> (r: bool)
    ensures
        r == begins_with(path@, base@),
{
    let path_text = chars_of(path);
    let base_text = chars_of(base);
    has_prefix(
        &split_components(path_text.as_slice()),
        &split_components(base_text.as_slice()),
    )
}

/// Whether `path` begins with `base` and leads to something inside of it.
pub fn stays_inside(path: &str, base: &str) -> (r: bool)
    ensures
        r == is_inside(path@, base@),
{
    if !starts_with(path, base) {
        return false;
    }
    let path_text = chars_of(path);
    let base_text = chars_of(base);
    if path_text.len() > 0 && path_text[0] == '/' && !(base_text.len() > 0 && base_text[0] == '/') {
        return false;
    }
    let inner = resolve(&split_components(path_text.as_slice()));
    let outer = resolve(&split_components(base_text.as_slice()));
    if !has_prefix(&inner, &outer) {
        return false;
    }
    let ghost whole = texts(inner@);
    let start: usize = outer.len();
    assert(texts(outer@).len() == start);
    let mut i: usize = start;
    while i < inner.len()
        invariant
            start <= i <= inner@.len(),
            whole == texts(inner@),
            start == resolved(components(base@)).len(),
            whole == resolved(components(path@)),
            forall|j: int| start <= j < i ==> #[trigger] whole[j] != ".."@,
        decreases inner@.len() - i,
    {
        assert(whole[i as int] == inner@[i as int]@);
        if equals(inner[i], "..") {
            return false;
        }
        i = i + 1;
    }
    true
}

/// Text, a slash and more text have the pieces of both texts.
pub proof fn lemma_pieces_slash(left: Seq<char>, right: Seq<char>)
    ensures
        pieces(left.push('/') + right, "/"@) == pieces(left, "/"@) + pieces(right, "/"@),
{
    reveal_strlit("/");
    law_pieces_of_joined_texts(left, "/"@, right);
    assert(left.push('/') + right == left + "/"@ + right);
}

pub proof fn lemma_names_add(left: Seq<Seq<char>>, right: Seq<Seq<char>>)
    ensures
        names(left + right) == names(left) + names(right),
{
    Seq::filter_distributes_over_add(left, right, |part: Seq<char>| part.len() > 0 && part != "."@);
}

pub proof fn lemma_names_of_nothing()
    ensures
        names(seq![Seq::<char>::empty()]) == Seq::<Seq<char>>::empty(),
{
    reveal_with_fuel(Seq::filter, 2);
    assert(seq![Seq::<char>::empty()].drop_last() == Seq::<Seq<char>>::empty());
}

pub proof fn lemma_no_components(path: Seq<char>)
    requires
        path.len() == 0,
    ensures
        components(path) == Seq::<Seq<char>>::empty(),
{
    reveal_strlit("/");
    reveal_strlit(".");
    lemma_find(path, "/"@, 0);
    assert(path == Seq::<char>::empty());
    assert(pieces(path, "/"@) == seq![path]);
    lemma_names_of_nothing();
}

/// What a path that is not absolute adds to the components of a directory.
pub proof fn lemma_relative_components(base: Seq<char>, path: Seq<char>)
    requires
        !is_absolute(path),
    ensures
        components(joined(base, path)) == components(base) + if base.len() == 0 {
            components(path)
        } else {
            names(pieces(path, "/"@))
        },
        is_absolute(joined(base, path)) == is_absolute(base),
{
    let whole = joined(base, path);
    let slash = "/"@;
    reveal_strlit("/");
    lemma_some_piece(base, slash);
    if base.len() == 0 {
        lemma_no_components(base);
        assert(whole == path);
    } else {
        let closed = base.last() == '/';
        let dir = if closed {
            base.drop_last()
        } else {
            base
        };
        let nothing = Seq::<char>::empty();
        lemma_some_piece(dir, slash);
        assert(whole == dir.push('/') + path);
        lemma_pieces_slash(dir, path);
        lemma_names_add(pieces(dir, slash), pieces(path, slash));
        if closed {
            assert(base == dir.push('/') + nothing);
            lemma_pieces_slash(dir, nothing);
            lemma_names_add(pieces(dir, slash), pieces(nothing, slash));
            lemma_find(nothing, slash, 0);
            assert(pieces(nothing, slash) == seq![nothing]);
            lemma_names_of_nothing();
            assert(names(pieces(base, slash)) == names(pieces(dir, slash)));
        }
        assert(whole[0] == base[0]);
        assert(pieces(whole, slash)[0] == pieces(base, slash)[0]);
        assert(start(whole) == start(base));
        assert(components(whole) == components(base) + names(pieces(path, slash)));
    }
}

/// A name of the directory itself, in front, leads nowhere.
proof fn lemma_resolved_after_dot(parts: Seq<Seq<char>>)
    ensures
        resolved(seq!["."@] + parts) == resolved(parts),
    decreases parts.len(),
{
    let all = seq!["."@] + parts;
    if parts.len() == 0 {
        reveal_with_fuel(resolved, 2);
        assert(all.drop_last() == Seq::<Seq<char>>::empty());
    } else {
        lemma_resolved_after_dot(parts.drop_last());
        assert(all.drop_last() == seq!["."@] + parts.drop_last());
    }
}

/// A path that is not absolute, seen from a directory, begins with that directory.  It is
/// inside of it if and only if its names, resolved from there, leave the directory as it is
/// and lead nowhere up.
pub proof fn law_relative_path(base: Seq<char>, path: Seq<char>)
    requires
        !is_absolute(path),
    ensures
        begins_with(joined(base, path), base),
        is_inside(joined(base, path), base) == ({
            let outer = resolved(components(base));
            let whole = resolved(components(base) + names(pieces(path, "/"@)));
            &&& outer.is_prefix_of(whole)
            &&& forall|i: int| outer.len() <= i < whole.len() ==> #[trigger] whole[i] != ".."@
        }),
{
    let outer = components(base);
    let whole = components(joined(base, path));
    let parts = names(pieces(path, "/"@));
    lemma_relative_components(base, path);
    assert(whole.subrange(0, outer.len() as int) == outer);
    assert(resolved(whole) == resolved(outer + parts)) by {
        if base.len() == 0 {
            lemma_no_components(base);
            assert(outer + components(path) == components(path));
            assert(outer + parts == parts);
            if start(path).len() == 0 {
                assert(components(path) == parts);
            } else {
                lemma_resolved_after_dot(parts);
            }
        }
    }
}

proof fn lemma_names_hold_no_root(parts: Seq<Seq<char>>)
    requires
        forall|i: int| 0 <= i < parts.len() ==> #[trigger] parts[i] != "/"@,
    ensures
        forall|i: int| 0 <= i < names(parts).len() ==> #[trigger] names(parts)[i] != "/"@,
    decreases parts.len(),
{
    reveal(Seq::filter);
    if parts.len() > 0 {
        let before = parts.drop_last();
        assert forall|i: int| 0 <= i < before.len() implies #[trigger] before[i] != "/"@ by {
            assert(before[i] == parts[i]);
        }
        lemma_names_hold_no_root(before);
        assert forall|i: int| 0 <= i < names(parts).len() implies #[trigger] names(parts)[i]
            != "/"@ by {
            if i < names(before).len() {
                assert(names(before)[i] == names(parts)[i]);
            } else {
                assert(names(parts)[i] == parts[parts.len() - 1]);
            }
        }
    }
}

/// Only the first component of a path can be the root directory.
proof fn lemma_root_is_first(path: Seq<char>)
    ensures
        forall|i: int|
            0 <= i < components(path).len() && #[trigger] components(path)[i] == "/"@ ==> i == 0
                && is_absolute(path),
{
    let slash = "/"@;
    let parts = pieces(path, slash);
    reveal_strlit("/");
    reveal_strlit(".");
    assert("."@[0] == '.' && slash[0] == '/');
    assert forall|i: int| 0 <= i < parts.len() implies #[trigger] parts[i] != slash by {
        let at = law_pieces_free_of_pattern(path, slash, i);
        if parts[i] == slash {
            assert(slash.subrange(0, 1) == slash);
            assert(matches_at(parts[i], slash, 0));
        }
    }
    lemma_names_hold_no_root(parts);
}

/// Components that never lead above their start leave what stands before them as it is.
proof fn lemma_resolved_below(base: Seq<Seq<char>>, parts: Seq<Seq<char>>)
    requires
        stays_below(parts),
        forall|i: int| 0 <= i < parts.len() ==> #[trigger] parts[i] != "/"@,
    ensures
        ({
            let outer = resolved(base);
            let whole = resolved(base + parts);
            &&& whole.len() == outer.len() + depth(parts)
            &&& outer.is_prefix_of(whole)
            &&& forall|i: int|
                outer.len() <= i < whole.len() ==> #[trigger] whole[i] != ".."@ && whole[i] != "/"@
        }),
    decreases parts.len(),
{
    let outer = resolved(base);
    if parts.len() == 0 {
        assert(base + parts == base);
        assert(outer.subrange(0, outer.len() as int) == outer);
    } else {
        let before = parts.drop_last();
        assert forall|k: int| 0 <= k <= before.len() implies depth(#[trigger] before.take(k))
            >= 0 by {
            assert(before.take(k) == parts.take(k));
        }
        assert forall|i: int| 0 <= i < before.len() implies #[trigger] before[i] != "/"@ by {
            assert(before[i] == parts[i]);
        }
        lemma_resolved_below(base, before);
        assert((base + parts).drop_last() == base + before);
        assert(parts.take(parts.len() as int) == parts);
        assert(depth(parts) >= 0);
        reveal_strlit(".");
        reveal_strlit("..");
        assert("."@.len() == 1 && ".."@.len() == 2);
        let near = resolved(base + before);
        let whole = resolved(base + parts);
        assert(near.subrange(0, outer.len() as int) == outer);
        assert(whole.subrange(0, outer.len() as int) == outer) by {
            assert forall|i: int| 0 <= i < outer.len() implies whole[i] == outer[i] by {
                assert(near.subrange(0, outer.len() as int)[i] == near[i]);
            }
        }
    }
}

/// A path that is not absolute and of which no beginning holds more `..` than names is inside
/// of any directory that it is seen from.
pub proof fn law_never_above_is_inside(base: Seq<char>, path: Seq<char>)
    requires
        !is_absolute(path),
        stays_below(names(pieces(path, "/"@))),
    ensures
        is_inside(joined(base, path), base),
{
    let parts = names(pieces(path, "/"@));
    law_relative_path(base, path);
    lemma_root_is_first(path);
    assert forall|i: int| 0 <= i < parts.len() implies #[trigger] parts[i] != "/"@ by {
        assert(parts[i] == components(path)[start(path).len() + i]);
    }
    lemma_resolved_below(components(base), parts);
}

} // verus!

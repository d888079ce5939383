//! What the parts of a path are, what a path leads to, and what is inside of a directory.

use vstd::prelude::*;

use crate::path::{
    begins_with, components, is_inside, joined, lemma_names_add, lemma_names_of_nothing,
    lemma_no_components, lemma_pieces_slash, names, resolved, start,
};
use crate::request_laws::lemma_free_without_first;
use crate::text::{lemma_find, lemma_one_piece, lemma_some_piece, pieces};

verus! {

/// A path seen from a directory keeps every character: it is what it is if it starts with a
/// slash, and else the directory, a slash unless there already is one or no directory, and the
/// path.
pub proof fn law_joined(base: Seq<char>, path: Seq<char>)
    ensures
        path.len() > 0 && path[0] == '/' ==> joined(base, path) == path,
        !(path.len() > 0 && path[0] == '/') && (base.len() == 0 || base[base.len() - 1] == '/')
            ==> joined(base, path) == base + path,
        !(path.len() > 0 && path[0] == '/') && base.len() > 0 && base[base.len() - 1] != '/'
            ==> joined(base, path) == base + seq!['/'] + path,
{
    if !(path.len() > 0 && path[0] == '/') && base.len() > 0 && base[base.len() - 1] != '/' {
        assert(base.push('/') + path == base + seq!['/'] + path);
    }
}

/// From one directory, two different paths lead to different joined ones.
pub proof fn law_joined_apart(base: Seq<char>, one: Seq<char>, other: Seq<char>)
    requires
        !(one.len() > 0 && one[0] == '/'),
        !(other.len() > 0 && other[0] == '/'),
        joined(base, one) == joined(base, other),
    ensures
        one == other,
{
    let whole = joined(base, one);
    assert(whole.len() - one.len() == whole.len() - other.len());
    let n = whole.len() - one.len();
    assert(whole.skip(n) =~= one);
    assert(whole.skip(n) =~= other);
}

proof fn lemma_segment(name: Seq<char>)
    requires
        forall|i: int| 0 <= i < name.len() ==> name[i] != '/',
    ensures
        pieces(name, "/"@) == seq![name],
        names(seq![name]) == if name.len() == 0 || name == "."@ {
            Seq::<Seq<char>>::empty()
        } else {
            seq![name]
        },
{
    reveal_strlit("/");
    lemma_free_without_first(name, "/"@);
    lemma_one_piece(name, "/"@);
    reveal_with_fuel(Seq::filter, 2);
    assert(seq![name].drop_last() == Seq::<Seq<char>>::empty());
    assert(Seq::<Seq<char>>::empty().push(name) == seq![name]);
}

/// A path without slashes has one component, itself, unless it is empty.
pub proof fn law_one_component(name: Seq<char>)
    requires
        forall|i: int| 0 <= i < name.len() ==> name[i] != '/',
    ensures
        components(name) == if name.len() == 0 {
            Seq::<Seq<char>>::empty()
        } else {
            seq![name]
        },
{
    reveal_strlit(".");
    lemma_segment(name);
    if name.len() == 0 {
        lemma_no_components(name);
    } else if name == "."@ {
        assert(seq!["."@] + Seq::<Seq<char>>::empty() == seq![name]);
    } else {
        assert(Seq::<Seq<char>>::empty() + seq![name] == seq![name]);
    }
}

/// A slash and a name behind a path are one more component, the name, to its last character;
/// nothing and the name of the directory itself add none.  A slash with nothing before it is
/// the root directory.  Together with `law_one_component` this says what the components of any
/// path are.
pub proof fn law_next_component(path: Seq<char>, name: Seq<char>)
    requires
        forall|i: int| 0 <= i < name.len() ==> name[i] != '/',
    ensures
        components(path + seq!['/'] + name) == ({
            let before = if path.len() == 0 {
                seq!["/"@]
            } else {
                components(path)
            };
            if name.len() == 0 || name == "."@ {
                before
            } else {
                before.push(name)
            }
        }),
{
    let whole = path + seq!['/'] + name;
    let slash = "/"@;
    reveal_strlit("/");
    lemma_segment(name);
    assert(whole == path.push('/') + name);
    lemma_pieces_slash(path, name);
    lemma_some_piece(path, slash);
    lemma_names_add(pieces(path, slash), pieces(name, slash));
    let parts = names(pieces(path, slash));
    let more = names(seq![name]);
    if path.len() == 0 {
        assert(whole[0] == '/');
        lemma_find(path, slash, 0);
        assert(path == Seq::<char>::empty());
        assert(pieces(path, slash) == seq![path]);
        lemma_names_of_nothing();
        assert(components(whole) == seq![slash] + more);
        assert(seq![slash] + Seq::<Seq<char>>::empty() == seq![slash]);
        assert(seq![slash] + seq![name] == seq![slash].push(name));
    } else {
        assert(whole[0] == path[0]);
        assert(pieces(whole, slash)[0] == pieces(path, slash)[0]);
        assert(start(whole) == start(path));
        assert(start(path) + (parts + more) == components(path) + more);
        assert(components(path) + Seq::<Seq<char>>::empty() == components(path));
        assert(components(path) + seq![name] == components(path).push(name));
    }
}

/// What the first parts lead to decides what all of them lead to.
proof fn lemma_resolved_rest(one: Seq<Seq<char>>, other: Seq<Seq<char>>, rest: Seq<Seq<char>>)
    requires
        resolved(one) == resolved(other),
    ensures
        resolved(one + rest) == resolved(other + rest),
    decreases rest.len(),
{
    if rest.len() == 0 {
        assert(one + rest == one);
        assert(other + rest == other);
    } else {
        lemma_resolved_rest(one, other, rest.drop_last());
        assert((one + rest).drop_last() == one + rest.drop_last());
        assert((other + rest).drop_last() == other + rest.drop_last());
        assert((one + rest).last() == rest.last());
        assert((other + rest).last() == rest.last());
    }
}

/// Names lead to themselves, and so do steps up with names after them.
pub proof fn law_resolved_names(ups: nat, list: Seq<Seq<char>>)
    requires
        forall|i: int| 0 <= i < list.len() ==> #[trigger] list[i] != "."@ && list[i] != ".."@,
    ensures
        resolved(Seq::new(ups, |i: int| ".."@) + list) == Seq::new(ups, |i: int| ".."@) + list,
    decreases ups + list.len(),
{
    let above = Seq::new(ups, |i: int| ".."@);
    let all = above + list;
    if list.len() > 0 {
        let before = list.drop_last();
        assert forall|i: int| 0 <= i < before.len() implies #[trigger] before[i] != "."@
            && before[i] != ".."@ by {
            assert(before[i] == list[i]);
        }
        law_resolved_names(ups, before);
        assert(all.drop_last() == above + before);
        assert(all.last() == list[list.len() - 1]);
        assert((above + before).push(list.last()) == all);
    } else if ups > 0 {
        let fewer = Seq::new((ups - 1) as nat, |i: int| ".."@);
        law_resolved_names((ups - 1) as nat, list);
        reveal_strlit(".");
        reveal_strlit("..");
        assert("."@.len() == 1 && ".."@.len() == 2);
        assert(fewer + list == fewer);
        assert(all == above);
        assert(above.drop_last() =~= fewer);
        assert(fewer.push(".."@) =~= above);
    }
}

/// The name of the directory itself leads nowhere.
pub proof fn law_resolved_dot(left: Seq<Seq<char>>, right: Seq<Seq<char>>)
    ensures
        resolved(left + seq!["."@] + right) == resolved(left + right),
{
    let here = left + seq!["."@];
    assert(here.drop_last() == left);
    lemma_resolved_rest(here, left, right);
}

/// A step up takes back the name before it.
pub proof fn law_resolved_up(left: Seq<Seq<char>>, name: Seq<char>, right: Seq<Seq<char>>)
    requires
        name != "."@,
        name != ".."@,
        name != "/"@,
    ensures
        resolved(left + seq![name, ".."@] + right) == resolved(left + right),
{
    reveal_strlit(".");
    reveal_strlit("..");
    assert("."@.len() == 1 && ".."@.len() == 2);
    let down = left + seq![name];
    let back = left + seq![name, ".."@];
    assert(down.drop_last() == left);
    assert(back.drop_last() == down);
    assert(resolved(down) == resolved(left).push(name));
    assert(resolved(left).push(name).drop_last() == resolved(left));
    lemma_resolved_rest(back, left, right);
}

/// Above the root directory there is only the root directory.
pub proof fn law_resolved_root(right: Seq<Seq<char>>)
    ensures
        resolved(seq!["/"@, ".."@] + right) == resolved(seq!["/"@] + right),
{
    reveal_strlit(".");
    reveal_strlit("..");
    reveal_strlit("/");
    assert("."@.len() == 1 && ".."@.len() == 2 && "/"@.len() == 1);
    assert("."@[0] == '.' && "/"@[0] == '/');
    let root = seq!["/"@];
    let up = seq!["/"@, ".."@];
    reveal_with_fuel(resolved, 3);
    assert(root.drop_last() == Seq::<Seq<char>>::empty());
    assert(up.drop_last() == root);
    assert(resolved(root) == Seq::<Seq<char>>::empty().push("/"@));
    lemma_resolved_rest(up, root, right);
}

/// What begins with a directory, and what is inside of it: not what leads elsewhere once
/// every step up is taken, and nothing absolute unless the directory is.
pub proof fn law_inside(path: Seq<char>, base: Seq<char>)
    ensures
        begins_with(path, base) <==> components(base).len() <= components(path).len() && (forall|
            i: int,
        |
            0 <= i < components(base).len() ==> #[trigger] components(path)[i] == components(
                base,
            )[i]),
        is_inside(path, base) <==> {
            let outer = resolved(components(base));
            let whole = resolved(components(path));
            &&& begins_with(path, base)
            &&& path.len() > 0 && path[0] == '/' ==> base.len() > 0 && base[0] == '/'
            &&& outer.len() <= whole.len()
            &&& forall|i: int| 0 <= i < outer.len() ==> #[trigger] whole[i] == outer[i]
            &&& forall|i: int| outer.len() <= i < whole.len() ==> #[trigger] whole[i] != ".."@
        },
{
    lemma_prefix(components(base), components(path));
    lemma_prefix(resolved(components(base)), resolved(components(path)));
}

proof fn lemma_prefix(short: Seq<Seq<char>>, long: Seq<Seq<char>>)
    ensures
        short.is_prefix_of(long) <==> short.len() <= long.len() && (forall|i: int|
            0 <= i < short.len() ==> #[trigger] long[i] == short[i]),
{
    if short.len() <= long.len() {
        if forall|i: int| 0 <= i < short.len() ==> #[trigger] long[i] == short[i] {
            assert(long.subrange(0, short.len() as int) =~= short);
        }
        if short.is_prefix_of(long) {
            assert forall|i: int| 0 <= i < short.len() implies #[trigger] long[i] == short[i] by {
                assert(long.subrange(0, short.len() as int)[i] == long[i]);
            }
        }
    }
}

} // verus!

//! What the components of paths are, said of paths that are put together.

use vstd::prelude::*;

use crate::bytes::below_bytes;
use crate::path::{
    components, is_part, is_under, last_name, leading_part, lemma_parent_components, named_parts,
    parent_of, part_of, same_path, PathPartView,
};
use crate::text::{lemma_pieces_not_empty, pieces};

verus! {

/// Without a separator there is one piece: the whole.
pub proof fn lemma_one_piece_only<T>(a: Seq<T>, sep: T)
    requires
        !a.contains(sep),
    ensures
        pieces(a, sep) == seq![a],
    decreases a.len(),
{
    if a.len() > 0 {
        let b = a.drop_last();
        assert(!b.contains(sep)) by {
            if b.contains(sep) {
                let i = b.index_of(sep);
                assert(a[i] == sep);
            }
        }
        lemma_one_piece_only(b, sep);
        assert(a[a.len() - 1] == a.last());
        assert(b.push(a.last()) =~= a);
        assert(pieces(a, sep) =~= seq![a]);
    } else {
        assert(a =~= Seq::empty());
    }
}

/// A separator stands between the pieces before it and those behind it.
pub proof fn lemma_pieces_around<T>(a: Seq<T>, b: Seq<T>, sep: T)
    ensures
        pieces(a + seq![sep] + b, sep) == pieces(a, sep) + pieces(b, sep),
    decreases b.len(),
{
    let all = a + seq![sep] + b;
    if b.len() == 0 {
        assert(all.drop_last() =~= a);
        assert(b =~= Seq::empty());
        assert(pieces(all, sep) =~= pieces(a, sep) + pieces(b, sep));
    } else {
        let c = b.drop_last();
        lemma_pieces_around(a, c, sep);
        lemma_pieces_not_empty(c, sep);
        assert(all.drop_last() =~= a + seq![sep] + c);
        assert(all.last() == b.last());
        assert(pieces(all, sep) =~= pieces(a, sep) + pieces(b, sep));
    }
}

/// No piece holds a separator.
pub proof fn lemma_pieces_hold_none<T>(s: Seq<T>, sep: T)
    ensures
        forall|i: int| 0 <= i < pieces(s, sep).len() ==> !(#[trigger] pieces(s, sep)[i]).contains(sep),
    decreases s.len(),
{
    let all = pieces(s, sep);
    if s.len() > 0 {
        let before = pieces(s.drop_last(), sep);
        lemma_pieces_hold_none(s.drop_last(), sep);
        lemma_pieces_not_empty(s.drop_last(), sep);
        assert forall|i: int| 0 <= i < all.len() implies !(#[trigger] all[i]).contains(sep) by {
            if s.last() == sep {
                if i < before.len() {
                    assert(all[i] == before[i]);
                }
            } else if i < before.len() - 1 {
                assert(all[i] == before[i]);
            } else {
                let old_piece = before.last();
                assert(all[i] == old_piece.push(s.last()));
                if all[i].contains(sep) {
                    let k = all[i].index_of(sep);
                    assert(k < old_piece.len());
                    assert(old_piece[k] == sep);
                    assert(before[before.len() - 1].contains(sep));
                }
            }
        }
    } else {
        assert(all =~= seq![Seq::<T>::empty()]);
    }
}

proof fn lemma_named_add(a: Seq<Seq<u8>>, b: Seq<Seq<u8>>)
    ensures
        named_parts(a + b) == named_parts(a) + named_parts(b),
{
    let keep = |piece: Seq<u8>| is_part(piece);
    let view = |piece: Seq<u8>| part_of(piece);
    Seq::filter_distributes_over_add(a, b, keep);
    assert((a.filter(keep) + b.filter(keep)).map_values(view) =~= a.filter(keep).map_values(view)
        + b.filter(keep).map_values(view));
}

proof fn lemma_named_one(a: Seq<u8>)
    ensures
        named_parts(seq![a]) == if a.len() == 0 || a == seq![46u8] {
            Seq::<PathPartView>::empty()
        } else if a == seq![46u8, 46u8] {
            seq![PathPartView::Parent]
        } else {
            seq![PathPartView::Name(a)]
        },
{
    reveal(Seq::filter);
    let keep = |piece: Seq<u8>| is_part(piece);
    assert(seq![a].drop_last() =~= Seq::<Seq<u8>>::empty());
    assert(seq![a].drop_last().filter(keep) =~= Seq::empty());
    assert(seq![a].last() == a);
    if is_part(a) {
        assert(seq![a].filter(keep) =~= seq![a]);
    } else {
        assert(seq![a].filter(keep) =~= Seq::empty());
    }
    assert(seq![46u8].len() == 1 && seq![46u8, 46u8].len() == 2);
    assert(named_parts(seq![a]) =~= if is_part(a) {
        seq![part_of(a)]
    } else {
        Seq::<PathPartView>::empty()
    });
}

/// The components of a path without slashes: none for the empty path, the current
/// directory for `.`, the parent for `..`, and otherwise a name.
pub proof fn lemma_plain_components(a: Seq<u8>)
    requires
        !a.contains(47u8),
    ensures
        components(a) == if a.len() == 0 {
            Seq::<PathPartView>::empty()
        } else if a == seq![46u8] {
            seq![PathPartView::Current]
        } else if a == seq![46u8, 46u8] {
            seq![PathPartView::Parent]
        } else {
            seq![PathPartView::Name(a)]
        },
{
    lemma_one_piece_only(a, 47u8);
    lemma_named_one(a);
    assert(seq![46u8].len() == 1 && seq![46u8, 46u8].len() == 2);
    if a.len() > 0 {
        assert(a.contains(a[0]));
    }
    assert(components(a) =~= leading_part(a) + named_parts(seq![a]));
}

/// What stands behind the last slash of a path is one component more: none where it
/// is empty or `.`, the parent for `..`, and otherwise a name. A slash in front is the
/// root.
pub proof fn lemma_components_behind_slash(a: Seq<u8>, b: Seq<u8>)
    requires
        !b.contains(47u8),
    ensures
        components(a + seq![47u8] + b) == (if a.len() == 0 {
            seq![PathPartView::Root]
        } else {
            components(a)
        }) + if b.len() == 0 || b == seq![46u8] {
            Seq::<PathPartView>::empty()
        } else if b == seq![46u8, 46u8] {
            seq![PathPartView::Parent]
        } else {
            seq![PathPartView::Name(b)]
        },
{
    let all = a + seq![47u8] + b;
    lemma_pieces_around(a, b, 47u8);
    lemma_one_piece_only(b, 47u8);
    lemma_named_add(pieces(a, 47u8), seq![b]);
    lemma_named_one(b);
    lemma_pieces_not_empty(a, 47u8);
    assert(pieces(all, 47u8)[0] == pieces(a, 47u8)[0]);
    if a.len() == 0 {
        assert(a =~= Seq::empty());
        assert(all[0] == 47u8);
        lemma_named_one(Seq::empty());
        assert(pieces(a, 47u8) =~= seq![Seq::<u8>::empty()]);
    } else {
        assert(all[0] == a[0]);
        assert(leading_part(all) == leading_part(a));
    }
    assert(components(all) =~= (if a.len() == 0 {
        seq![PathPartView::Root]
    } else {
        components(a)
    }) + named_parts(seq![b]));
}

/// Whether bytes are a name: not empty, without a slash, neither `.` nor `..`.
pub open spec fn is_name(n: Seq<u8>) -> bool {
    n.len() > 0 && !n.contains(47u8) && n != seq![46u8] && n != seq![46u8, 46u8]
}

/// The names in a path are names.
pub proof fn lemma_names_are_names(path: Seq<u8>, i: int)
    requires
        0 <= i < components(path).len(),
        components(path)[i] is Name,
    ensures
        is_name(components(path)[i]->Name_0),
{
    let lead = leading_part(path);
    let all = pieces(path, 47u8);
    let keep = |piece: Seq<u8>| is_part(piece);
    let kept = all.filter(keep);
    let k = i - lead.len();
    assert(components(path)[i] == named_parts(all)[k]);
    all.lemma_filter_pred(keep, k);
    assert(all.contains(kept[k])) by {
        lemma_filtered_is_there(all, keep, k);
    }
    let j = all.index_of(kept[k]);
    lemma_pieces_hold_none(path, 47u8);
    assert(!all[j].contains(47u8));
}

/// Filters that agree keep the same.
pub proof fn lemma_same_filter<A>(s: Seq<A>, f: spec_fn(A) -> bool, g: spec_fn(A) -> bool)
    requires
        forall|x: A| #[trigger] f(x) == g(x),
    ensures
        s.filter(f) == s.filter(g),
    decreases s.len(),
{
    reveal(Seq::filter);
    if s.len() > 0 {
        lemma_same_filter(s.drop_last(), f, g);
        assert(f(s.last()) == g(s.last()));
    }
}

/// What a filter keeps was there.
pub proof fn lemma_filtered_is_there<A>(s: Seq<A>, keep: spec_fn(A) -> bool, k: int)
    requires
        0 <= k < s.filter(keep).len(),
    ensures
        s.contains(s.filter(keep)[k]),
    decreases s.len(),
{
    reveal(Seq::filter);
    let front = s.drop_last();
    if k < front.filter(keep).len() {
        lemma_filtered_is_there(front, keep, k);
        let x = front.filter(keep)[k];
        let i = front.index_of(x);
        assert(s[i] == x);
    } else {
        assert(s[s.len() - 1] == s.filter(keep)[k]);
    }
}

/// A name below a directory is one component more.
pub proof fn lemma_below_components(dir: Seq<u8>, name: Seq<u8>)
    requires
        is_name(name),
    ensures
        components(below_bytes(dir, name)) == components(dir).push(PathPartView::Name(name)),
        dir.is_prefix_of(below_bytes(dir, name)),
{
    let all = below_bytes(dir, name);
    assert(dir =~= all.take(dir.len() as int));
    if dir.len() == 0 {
        lemma_plain_components(name);
        lemma_plain_components(dir);
        assert(all =~= name);
        assert(components(all) =~= components(dir).push(PathPartView::Name(name)));
    } else if dir.last() == 47u8 {
        let front = dir.drop_last();
        assert(all =~= front + seq![47u8] + name);
        assert(dir =~= front + seq![47u8] + Seq::<u8>::empty());
        lemma_components_behind_slash(front, name);
        lemma_components_behind_slash(front, Seq::empty());
        assert(components(all) =~= components(dir).push(PathPartView::Name(name)));
    } else {
        assert(all =~= dir + seq![47u8] + name);
        lemma_components_behind_slash(dir, name);
        assert(components(all) =~= components(dir).push(PathPartView::Name(name)));
    }
}

/// A path has a parent unless it has no components or is the root, and a file name
/// where its last component is a name; the parent has the other components.
pub proof fn lemma_parent_and_name(path: Seq<u8>)
    ensures
        parent_of(path) is Some <==> components(path).len() > 0 && !(components(path).last()
            is Root),
        parent_of(path) matches Some(parent) ==> components(path) == components(parent).push(
            components(path).last(),
        ),
        last_name(path) matches Some(name) ==> components(path).len() > 0 && components(path).last()
            == PathPartView::Name(name) && is_name(name),
        last_name(path) is None ==> components(path).len() == 0 || !(components(path).last()
            is Name),
{
    lemma_parent_components(path);
    if let Some(parent) = parent_of(path) {
        assert(components(path) =~= components(parent).push(components(path).last()));
    }
    if components(path).len() > 0 && components(path).last() is Name {
        lemma_names_are_names(path, components(path).len() - 1);
    }
}

/// The parent of a name below a directory is a path with the directory's components,
/// and the file name is the name.
pub proof fn lemma_parent_of_below(dir: Seq<u8>, name: Seq<u8>)
    requires
        is_name(name),
    ensures
        parent_of(below_bytes(dir, name)) matches Some(parent) && components(parent) == components(
            dir,
        ),
        last_name(below_bytes(dir, name)) == Some(name),
{
    lemma_below_components(dir, name);
    lemma_parent_and_name(below_bytes(dir, name));
    let all = components(below_bytes(dir, name));
    assert(all.drop_last() =~= components(dir));
    let parent = parent_of(below_bytes(dir, name))->0;
    assert(components(parent).push(all.last()).drop_last() =~= components(parent));
}

/// A path lies under another one exactly where it has the other's components in front,
/// and is the same where it has just those.
pub proof fn lemma_under(path: Seq<u8>, base: Seq<u8>)
    ensures
        is_under(path, base) <==> components(base).len() <= components(path).len() && forall|i: int|
            0 <= i < components(base).len() ==> components(base)[i] == #[trigger] components(
                path,
            )[i],
        same_path(path, base) <==> components(path) == components(base),
        is_under(path, base) && is_under(base, path) ==> same_path(path, base),
{
    let a = components(path);
    let b = components(base);
    if b.len() <= a.len() && forall|i: int| 0 <= i < b.len() ==> b[i] == #[trigger] a[i] {
        assert(a.take(b.len() as int) =~= b);
    }
    if is_under(path, base) {
        assert forall|i: int| 0 <= i < b.len() implies b[i] == #[trigger] a[i] by {
            assert(a.take(b.len() as int)[i] == a[i]);
        }
    }
    if is_under(path, base) && is_under(base, path) {
        assert(a =~= b);
    }
}

} // verus!

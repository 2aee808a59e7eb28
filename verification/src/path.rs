//! Paths: their components on Unix, which are bytes, and what is derived from them.

use vstd::prelude::*;

use crate::bytes::{byte_views, copy_bytes, same_bytes, split_bytes};
use crate::text::{lemma_pieces_not_empty, opt_view, pieces};

verus! {

/// One component of a path.
#[derive(Debug)]
pub enum PathPart {
    /// The root, `/`.
    Root,
    /// The current directory, `.`, where a path starts with it.
    Current,
    /// The parent directory, `..`.
    Parent,
    /// A name.
    Name(Vec<u8>),
}

/// The view of a component.
pub enum PathPartView {
    Root,
    Current,
    Parent,
    Name(Seq<u8>),
}

impl View for PathPart {
    type V = PathPartView;

    open spec fn view(&self) -> PathPartView {
        match *self {
            PathPart::Root => PathPartView::Root,
            PathPart::Current => PathPartView::Current,
            PathPart::Parent => PathPartView::Parent,
            PathPart::Name(name) => PathPartView::Name(name@),
        }
    }
}

/// The views of a list of components.
pub open spec fn part_views(v: Seq<PathPart>) -> Seq<PathPartView> {
    v.map_values(|p: PathPart| p@)
}

/// What a path starts with: the root, or the current directory, or neither.
pub open spec fn leading_part(path: Seq<u8>) -> Seq<PathPartView> {
    if path.len() > 0 && path[0] == 47u8 {
        seq![PathPartView::Root]
    } else if pieces(path, 47u8)[0] == seq![46u8] {
        seq![PathPartView::Current]
    } else {
        Seq::empty()
    }
}

/// The component that a piece between two slashes stands for.
pub open spec fn part_of(piece: Seq<u8>) -> PathPartView {
    if piece == seq![46u8, 46u8] {
        PathPartView::Parent
    } else {
        PathPartView::Name(piece)
    }
}

/// Whether a piece between two slashes counts.
pub open spec fn is_part(piece: Seq<u8>) -> bool {
    piece.len() > 0 && piece != seq![46u8]
}

/// The components that the pieces between slashes stand for.
pub open spec fn named_parts(split: Seq<Seq<u8>>) -> Seq<PathPartView> {
    split.filter(|piece: Seq<u8>| is_part(piece)).map_values(|piece: Seq<u8>| part_of(piece))
}

/// The components of a path: repeated and trailing slashes do not count, nor
/// does a `.` that is not in front.
pub open spec fn components(path: Seq<u8>) -> Seq<PathPartView> {
    leading_part(path) + named_parts(pieces(path, 47u8))
}

/// Whether two paths have the same components.
pub open spec fn same_path(a: Seq<u8>, b: Seq<u8>) -> bool {
    components(a) == components(b)
}

/// Whether `base` is `path` or one of the directories above it.
pub open spec fn is_under(path: Seq<u8>, base: Seq<u8>) -> bool {
    components(base).is_prefix_of(components(path))
}

/// The last component of a path, where it is a name.
pub open spec fn last_name(path: Seq<u8>) -> Option<Seq<u8>> {
    if components(path).len() == 0 {
        None
    } else {
        match components(path).last() {
            PathPartView::Name(name) => Some(name),
            _ => None,
        }
    }
}

/// Whether the first `n` bytes of a path are the path without its last
/// component.
pub open spec fn ends_parent(path: Seq<u8>, n: int) -> bool {
    components(path.take(n)) == components(path).drop_last()
}

/// A path without its last component: the shortest beginning of the
/// path that has the other components. The root, and a path without components,
/// have none.
pub open spec fn parent_of(path: Seq<u8>) -> Option<Seq<u8>> {
    if components(path).len() == 0 || components(path).last() is Root {
        None
    } else {
        let n = choose|n: int|
            0 <= n <= path.len() && #[trigger] ends_parent(path, n) && forall|m: int|
                0 <= m < n ==> !(#[trigger] ends_parent(path, m));
        Some(path.take(n))
    }
}

proof fn lemma_named_push(split: Seq<Seq<u8>>, piece: Seq<u8>)
    ensures
        named_parts(split.push(piece)) == if is_part(piece) {
            named_parts(split).push(part_of(piece))
        } else {
            named_parts(split)
        },
{
    reveal(Seq::filter);
    assert(split.push(piece).drop_last() == split);
    assert(split.push(piece).last() == piece);
    let kept = split.filter(|piece: Seq<u8>| is_part(piece));
    assert(kept.push(piece).map_values(|piece: Seq<u8>| part_of(piece)) =~= kept.map_values(
        |piece: Seq<u8>| part_of(piece),
    ).push(part_of(piece)));
}

/// The components of a path that is one byte longer.
proof fn lemma_components_grow(path: Seq<u8>)
    requires
        path.len() > 0,
        path.last() != 47u8,
    ensures
        ({
            let before = pieces(path.drop_last(), 47u8);
            let piece = before.last().push(path.last());
            let named = named_parts(before.drop_last());
            &&& components(path) == leading_part(path) + (if is_part(piece) {
                named.push(part_of(piece))
            } else {
                named
            })
            &&& components(path.drop_last()) == leading_part(path.drop_last()) + (if is_part(
                before.last(),
            ) {
                named.push(part_of(before.last()))
            } else {
                named
            })
            &&& before.len() > 1 ==> leading_part(path) == leading_part(path.drop_last())
            &&& before.len() == 1 ==> piece == path && before.last() == path.drop_last() && path[0]
                != 47u8
        }),
{
    let q = path.drop_last();
    let before = pieces(q, 47u8);
    lemma_pieces_not_empty(q, 47u8);
    let piece = before.last().push(path.last());
    lemma_named_push(before.drop_last(), piece);
    lemma_named_push(before.drop_last(), before.last());
    assert(before.drop_last().push(before.last()) == before);
    assert(pieces(path, 47u8) == before.drop_last().push(piece));
    if before.len() > 1 {
        lemma_one_piece(q);
        assert(path[0] == q[0]);
        assert(pieces(path, 47u8)[0] == before[0]);
    } else {
        lemma_one_piece(q);
        assert(piece =~= path);
        if q.len() > 0 {
            assert(path[0] == q[0]);
        }
    }
}

/// A path without slashes is one piece, and one with slashes is more.
proof fn lemma_one_piece(path: Seq<u8>)
    ensures
        pieces(path, 47u8).len() == 1 ==> pieces(path, 47u8)[0] == path && (path.len() > 0 ==> path[0]
            != 47u8),
        pieces(path, 47u8).len() > 1 ==> path.len() > 0,
    decreases path.len(),
{
    lemma_pieces_not_empty(path, 47u8);
    if path.len() > 0 {
        let q = path.drop_last();
        lemma_one_piece(q);
        lemma_pieces_not_empty(q, 47u8);
        if path.last() != 47u8 && pieces(q, 47u8).len() == 1 {
            assert(pieces(path, 47u8)[0] =~= path);
            if q.len() > 0 {
                assert(path[0] == q[0]);
            }
        }
    }
}

/// A trailing slash adds no component, unless it is the root.
proof fn lemma_trailing_slash(path: Seq<u8>)
    requires
        path.len() > 1,
        path.last() == 47u8,
    ensures
        components(path) == components(path.drop_last()),
{
    let q = path.drop_last();
    lemma_pieces_not_empty(q, 47u8);
    lemma_named_push(pieces(q, 47u8), Seq::empty());
    assert(path[0] == q[0]);
    assert(pieces(path, 47u8)[0] == pieces(q, 47u8)[0]);
}

proof fn lemma_no_components()
    ensures
        components(Seq::empty()) == Seq::<PathPartView>::empty(),
{
    reveal(Seq::filter);
    let one = seq![Seq::<u8>::empty()];
    assert(pieces(Seq::empty(), 47u8) == one);
    assert(one.drop_last() == Seq::<Seq<u8>>::empty());
    assert(one.drop_last().filter(|piece: Seq<u8>| is_part(piece)) =~= Seq::empty());
    assert(named_parts(one) =~= Seq::empty());
}

/// A path that does not end in the root begins with its parent.
proof fn lemma_parent_is_there(path: Seq<u8>) -> (n: int)
    requires
        components(path).len() > 0,
        !(components(path).last() is Root),
    ensures
        0 <= n <= path.len(),
        ends_parent(path, n),
    decreases path.len(),
{
    lemma_no_components();
    let parts = components(path);
    if path.len() == 0 {
        assert(path == Seq::<u8>::empty());
        0
    } else {
        let q = path.drop_last();
        if path.last() == 47u8 {
            if q.len() == 0 {
                assert(leading_part(path) == seq![PathPartView::Root]);
                lemma_named_push(seq![Seq::<u8>::empty()], Seq::empty());
                assert(q == Seq::<u8>::empty());
                assert(named_parts(seq![Seq::<u8>::empty()]) == components(Seq::empty()));
                assert(parts =~= seq![PathPartView::Root]);
                0
            } else {
                lemma_trailing_slash(path);
                let n = lemma_parent_is_there(q);
                assert(path.take(n) == q.take(n));
                n
            }
        } else {
            lemma_components_grow(path);
            let before = pieces(q, 47u8);
            lemma_pieces_not_empty(q, 47u8);
            let piece = before.last().push(path.last());
            let named = named_parts(before.drop_last());
            if before.len() == 1 {
                assert(before.drop_last() == Seq::<Seq<u8>>::empty());
                assert(named =~= Seq::empty()) by {
                    reveal(Seq::filter);
                    assert(before.drop_last().filter(|piece: Seq<u8>| is_part(piece))
                        =~= Seq::empty());
                }
                assert(pieces(path, 47u8)[0] == path) by {
                    lemma_one_piece(path);
                }
                assert(parts.drop_last() =~= Seq::empty());
                assert(path.take(0) == Seq::<u8>::empty());
                0
            } else {
                let lead = leading_part(path);
                if is_part(piece) {
                    assert((lead + named.push(part_of(piece))).drop_last() =~= lead + named);
                    if is_part(before.last()) {
                        assert((lead + named.push(part_of(before.last()))).drop_last() =~= lead
                            + named);
                        let n = lemma_parent_is_there(q);
                        assert(path.take(n) == q.take(n));
                        n
                    } else {
                        assert(path.take(q.len() as int) == q);
                        q.len() as int
                    }
                } else {
                    assert(piece == seq![46u8]);
                    assert(before.last().len() == 0);
                    let n = lemma_parent_is_there(q);
                    assert(path.take(n) == q.take(n));
                    n
                }
            }
        }
    }
}

/// The parent of a path has all its components but the last.
pub proof fn lemma_parent_components(path: Seq<u8>)
    ensures
        parent_of(path) matches Some(parent) ==> components(path).len() > 0 && components(parent)
            == components(path).drop_last(),
{
    if components(path).len() > 0 && !(components(path).last() is Root) {
        let n = lemma_parent_is_there(path);
        lemma_first_parent(path, n);
    }
}

/// Where some beginning of a path is its parent, there is a shortest one.
proof fn lemma_first_parent(path: Seq<u8>, n: int)
    requires
        components(path).len() > 0,
        !(components(path).last() is Root),
        0 <= n <= path.len(),
        ends_parent(path, n),
    ensures
        parent_of(path) matches Some(parent) && components(parent) == components(
            path,
        ).drop_last(),
    decreases n,
{
    if exists|m: int| 0 <= m < n && #[trigger] ends_parent(path, m) {
        let m = choose|m: int| 0 <= m < n && #[trigger] ends_parent(path, m);
        lemma_first_parent(path, m);
    } else {
        lemma_shortest_parent(path, n);
    }
}

/// Tells whether a piece is a dot.
fn is_dot(piece: &[u8]) -> (r: bool)
    ensures
        r == (piece@ == seq![46u8]),
{
    if piece.len() == 1 && piece[0] == 46 {
        assert(piece@ =~= seq![46u8]);
        true
    } else {
        assert(seq![46u8].len() == 1 && seq![46u8][0] == 46);
        false
    }
}

/// Tells whether a piece is two dots.
fn is_two_dots(piece: &[u8]) -> (r: bool)
    ensures
        r == (piece@ == seq![46u8, 46u8]),
{
    if piece.len() == 2 && piece[0] == 46 && piece[1] == 46 {
        assert(piece@ =~= seq![46u8, 46u8]);
        true
    } else {
        assert(seq![46u8, 46u8].len() == 2 && seq![46u8, 46u8][0] == 46 && seq![46u8, 46u8][1] == 46);
        false
    }
}

/// The components of a path.
pub fn path_components(path: &[u8]) -> (r: Vec<PathPart>)
    ensures
        part_views(r@) == components(path@),
{
    let found = split_bytes(path, 47u8);
    let ghost all = byte_views(found@);
    proof {
        lemma_pieces_not_empty(path@, 47u8);
    }
    let mut r: Vec<PathPart> = Vec::new();
    assert(found@[0]@ == all[0]);
    if path.len() > 0 && path[0] == 47u8 {
        r.push(PathPart::Root);
    } else if is_dot(found[0].as_slice()) {
        r.push(PathPart::Current);
    }
    let ghost lead = part_views(r@);
    assert(lead =~= leading_part(path@));
    proof {
        reveal(Seq::filter);
        assert(all.take(0).filter(|piece: Seq<u8>| is_part(piece)) =~= Seq::empty());
        assert(named_parts(all.take(0)) =~= Seq::empty());
        assert(lead + named_parts(all.take(0)) =~= lead);
    }
    for i in 0..found.len()
        invariant
            all == byte_views(found@),
            part_views(r@) == lead + named_parts(all.take(i as int)),
    {
        let piece = &found[i];
        let ghost had = part_views(r@);
        proof {
            lemma_named_push(all.take(i as int), all[i as int]);
            assert(all.take(i + 1) =~= all.take(i as int).push(all[i as int]));
            assert(all[i as int] == piece@);
        }
        if piece.len() > 0 && !is_dot(piece.as_slice()) {
            if is_two_dots(piece.as_slice()) {
                r.push(PathPart::Parent);
            } else {
                r.push(PathPart::Name(copy_bytes(piece.as_slice())));
            }
            assert(part_views(r@) =~= had.push(part_of(piece@)));
            assert(lead + named_parts(all.take(i as int)).push(part_of(piece@)) =~= had.push(
                part_of(piece@),
            ));
        }
    }
    assert(all.take(all.len() as int) == all);
    r
}

/// The path without its last component; the root, and a path without
/// components, have none.
pub fn path_parent(path: &[u8]) -> (r: Option<Vec<u8>>)
    ensures
        opt_view(r) == parent_of(path@),
        match r {
            Some(parent) => components(parent@) == components(path@).drop_last(),
            None => true,
        },
{
    let mut parts = path_components(path);
    let ghost all = part_views(parts@);
    match parts.pop() {
        None => {
            return None;
        },
        Some(last) => {
            assert(all.last() == last@);
            if let PathPart::Root = last {
                return None;
            }
        },
    }
    assert(part_views(parts@) =~= all.drop_last());
    let ghost some = lemma_parent_is_there(path@);
    let total: usize = path.len();
    let mut n: usize = 0;
    loop
        invariant
            total == path@.len(),
            part_views(parts@) == components(path@).drop_last(),
            components(path@).len() > 0,
            !(components(path@).last() is Root),
            0 <= some <= total,
            ends_parent(path@, some),
            n <= some,
            forall|m: int| 0 <= m < n ==> !(#[trigger] ends_parent(path@, m)),
        decreases total - n,
    {
        let head: &[u8] = vstd::slice::slice_subrange(path, 0, n);
        assert(head@ =~= path@.take(n as int));
        if same_parts(&path_components(head), &parts) {
            proof {
                lemma_shortest_parent(path@, n as int);
            }
            return Some(copy_bytes(head));
        }
        n += 1;
    }
}

/// The shortest beginning of a path that is its parent is the parent.
proof fn lemma_shortest_parent(path: Seq<u8>, n: int)
    requires
        components(path).len() > 0,
        !(components(path).last() is Root),
        0 <= n <= path.len(),
        ends_parent(path, n),
        forall|m: int| 0 <= m < n ==> !(#[trigger] ends_parent(path, m)),
    ensures
        parent_of(path) == Some(path.take(n)),
{
    let k = choose|k: int|
        0 <= k <= path.len() && #[trigger] ends_parent(path, k) && forall|m: int|
            0 <= m < k ==> !(#[trigger] ends_parent(path, m));
    assert(k == n);
}

proof fn lemma_least_parent(path: Seq<u8>, n: int) -> (k: int)
    requires
        0 <= n <= path.len(),
        ends_parent(path, n),
    ensures
        0 <= k <= n,
        ends_parent(path, k),
        forall|m: int| 0 <= m < k ==> !(#[trigger] ends_parent(path, m)),
    decreases n,
{
    if exists|m: int| 0 <= m < n && #[trigger] ends_parent(path, m) {
        let m = choose|m: int| 0 <= m < n && #[trigger] ends_parent(path, m);
        lemma_least_parent(path, m)
    } else {
        n
    }
}

/// The parent of a path is a beginning of the path, and no shorter beginning has the
/// same components.
pub proof fn lemma_parent_is_shortest(path: Seq<u8>)
    ensures
        parent_of(path) matches Some(parent) ==> parent.is_prefix_of(path) && forall|m: int|
            0 <= m < parent.len() ==> components(#[trigger] path.take(m)) != components(
                path,
            ).drop_last(),
{
    if components(path).len() > 0 && !(components(path).last() is Root) {
        let n = lemma_parent_is_there(path);
        let k = lemma_least_parent(path, n);
        lemma_shortest_parent(path, k);
        assert forall|m: int| 0 <= m < k implies components(#[trigger] path.take(m)) != components(
            path,
        ).drop_last() by {
            assert(!ends_parent(path, m));
        }
        assert(path.take(k) =~= path.take(k).take(k));
    }
}

/// Compares two components.
fn same_part(a: &PathPart, b: &PathPart) -> (r: bool)
    ensures
        r == (a@ == b@),
{
    match (a, b) {
        (PathPart::Root, PathPart::Root) => true,
        (PathPart::Current, PathPart::Current) => true,
        (PathPart::Parent, PathPart::Parent) => true,
        (PathPart::Name(x), PathPart::Name(y)) => same_bytes(x.as_slice(), y.as_slice()),
        _ => false,
    }
}

/// Whether the list `a` starts with the list `b`.
fn starts_with_parts(a: &Vec<PathPart>, b: &Vec<PathPart>) -> (r: bool)
    ensures
        r == part_views(b@).is_prefix_of(part_views(a@)),
{
    if b.len() > a.len() {
        return false;
    }
    for i in 0..b.len()
        invariant
            b.len() <= a.len(),
            forall|j: int| 0 <= j < i ==> #[trigger] part_views(b@)[j] == part_views(a@)[j],
    {
        if !same_part(&a[i], &b[i]) {
            assert(part_views(a@).take(b@.len() as int)[i as int] == part_views(a@)[i as int]);
            return false;
        }
    }
    assert(part_views(a@).take(b@.len() as int) == part_views(b@));
    true
}

/// Compares two lists of components.
fn same_parts(a: &Vec<PathPart>, b: &Vec<PathPart>) -> (r: bool)
    ensures
        r == (part_views(a@) == part_views(b@)),
{
    assert(part_views(a@).take(a@.len() as int) == part_views(a@));
    a.len() == b.len() && starts_with_parts(a, b)
}

/// Whether two paths have the same components.
pub fn path_eq(a: &[u8], b: &[u8]) -> (r: bool)
    ensures
        r == same_path(a@, b@),
{
    same_parts(&path_components(a), &path_components(b))
}

/// Whether `base` is `path` or one of the directories above it.
pub fn path_starts_with(path: &[u8], base: &[u8]) -> (r: bool)
    ensures
        r == is_under(path@, base@),
{
    let x = path_components(path);
    let y = path_components(base);
    starts_with_parts(&x, &y)
}

/// The last component of a path, where it is a name.
pub fn file_name(path: &[u8]) -> (r: Option<Vec<u8>>)
    ensures
        opt_view(r) == last_name(path@),
{
    let mut parts = path_components(path);
    let ghost all = parts@;
    match parts.pop() {
        Some(last) => {
            assert(part_views(all).last() == last@);
            match last {
                PathPart::Name(name) => Some(name),
                _ => None,
            }
        },
        None => None,
    }
}

/// Whether a path, written as text, starts at the root.
pub open spec fn is_absolute_path(path: Seq<char>) -> bool {
    path.len() > 0 && path[0] == '/'
}

/// `name`, which does not start at the root, below the directory `dir`, both written
/// as text.
pub open spec fn below(dir: Seq<char>, name: Seq<char>) -> Seq<char> {
    if dir.len() == 0 || dir.last() == '/' {
        dir + name
    } else {
        dir + "/"@ + name
    }
}

/// `name`, which does not start at the root, below the directory `dir`.
pub fn join_below(dir: &str, name: &str) -> (r: String)
    ensures
        r@ == below(dir@, name@),
{
    let mut r = String::from_str(dir);
    let n: usize = dir.unicode_len();
    if n > 0 && dir.get_char(n - 1) != '/' {
        r.append("/");
    }
    r.append(name);
    r
}

/// Whether a path starts at the root.
pub fn is_absolute(path: &str) -> (r: bool)
    ensures
        r == is_absolute_path(path@),
{
    path.unicode_len() > 0 && path.get_char(0) == '/'
}

} // verus!

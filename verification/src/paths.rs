//! Unix paths as bytes: their components, their order, and the few ways in which the registry
//! derives one path from another.

use vstd::prelude::*;

use crate::lexical;

verus! {

pub const SEPARATOR: u8 = 47;

pub const DOT: u8 = 46;

/// One component of a path, as a specification value.
pub enum Part {
    Root,
    Current,
    Parent,
    Name(Seq<u8>),
}

/// The byte strings between the separators of a path; an empty path has one empty piece.
pub open spec fn pieces(path: Seq<u8>) -> Seq<Seq<u8>>
    decreases path.len(),
{
    if path.len() == 0 {
        seq![Seq::<u8>::empty()]
    } else {
        let before = pieces(path.drop_last());
        if path.last() == SEPARATOR {
            before.push(Seq::<u8>::empty())
        } else {
            before.drop_last().push(before.last().push(path.last()))
        }
    }
}

/// What the piece at `index` contributes: nothing where it is empty, and nothing where it is
/// `.` anywhere but at the start of the path.
pub open spec fn part_at(index: int, piece: Seq<u8>) -> Option<Part> {
    if piece.len() == 0 {
        None
    } else if piece == seq![DOT] {
        if index == 0 {
            Some(Part::Current)
        } else {
            None
        }
    } else if piece == seq![DOT, DOT] {
        Some(Part::Parent)
    } else {
        Some(Part::Name(piece))
    }
}

/// The components that a sequence of pieces contributes, in order.
pub open spec fn parts(pieces: Seq<Seq<u8>>) -> Seq<Part>
    decreases pieces.len(),
{
    if pieces.len() == 0 {
        Seq::empty()
    } else {
        let before = parts(pieces.drop_last());
        match part_at(pieces.len() - 1, pieces.last()) {
            Some(part) => before.push(part),
            None => before,
        }
    }
}

/// A path is absolute where it starts at the root.
pub open spec fn absolute(path: Seq<u8>) -> bool {
    path.len() > 0 && path[0] == SEPARATOR
}

/// Tells whether a path is absolute.
pub fn is_absolute(path: &[u8]) -> (answer: bool)
    ensures
        answer == absolute(path@),
{
    path.len() > 0 && path[0] == SEPARATOR
}

/// The root component of an absolute path, and nothing for a relative one.
pub open spec fn root_parts(path: Seq<u8>) -> Seq<Part> {
    if absolute(path) {
        seq![Part::Root]
    } else {
        Seq::empty()
    }
}

/// The components of a path.
pub open spec fn components(path: Seq<u8>) -> Seq<Part> {
    root_parts(path) + parts(pieces(path))
}

/// Two spellings name the same path where their components agree.
pub open spec fn same_path(a: Seq<u8>, b: Seq<u8>) -> bool {
    components(a) == components(b)
}

pub open spec fn byte_before() -> spec_fn(u8, u8) -> bool {
    |x: u8, y: u8| x < y
}

pub open spec fn part_rank(part: Part) -> int {
    match part {
        Part::Root => 0,
        Part::Current => 1,
        Part::Parent => 2,
        Part::Name(_) => 3,
    }
}

/// The order of components: the root, then `.`, then `..`, then names in byte order.
pub open spec fn part_before() -> spec_fn(Part, Part) -> bool {
    |x: Part, y: Part|
        {
            ||| part_rank(x) < part_rank(y)
            ||| match (x, y) {
                (Part::Name(a), Part::Name(b)) => lexical::comes_before(a, b, byte_before()),
                _ => false,
            }
        }
}

/// The order of paths: dictionary order of their components.
pub open spec fn path_before(a: Seq<u8>, b: Seq<u8>) -> bool {
    lexical::comes_before(components(a), components(b), part_before())
}

/// Byte order and component order are strict total orders.
pub proof fn orders_are_total()
    ensures
        lexical::strict_total_order(byte_before()),
        lexical::strict_total_order(part_before()),
{
    let bytes = byte_before();
    let before = part_before();
    assert forall|x: Part| !#[trigger] before(x, x) by {
        if let Part::Name(a) = x {
            lexical::irreflexive(a, bytes);
        }
    }
    assert forall|x: Part, y: Part, z: Part| #[trigger]
        before(x, y) && #[trigger] before(y, z) implies before(x, z) by {
        if let (Part::Name(a), Part::Name(b), Part::Name(c)) = (x, y, z) {
            lexical::transitive(a, b, c, bytes);
        }
    }
    assert forall|x: Part, y: Part| #[trigger] before(x, y) || x == y || before(y, x) by {
        if let (Part::Name(a), Part::Name(b)) = (x, y) {
            lexical::total(a, b, bytes);
        }
    }
}

/// An owned copy of a byte string.
pub fn copy_bytes(bytes: &[u8]) -> (copy: Vec<u8>)
    ensures
        copy@ == bytes@,
{
    let mut copy: Vec<u8> = Vec::new();
    copy.extend_from_slice(bytes);
    assert(copy@ =~= bytes@);
    copy
}

/// One component of a path.
pub enum Component {
    Root,
    Current,
    Parent,
    Name(Vec<u8>),
}

impl View for Component {
    type V = Part;

    open spec fn view(&self) -> Part {
        match self {
            Component::Root => Part::Root,
            Component::Current => Part::Current,
            Component::Parent => Part::Parent,
            Component::Name(name) => Part::Name(name@),
        }
    }
}

pub open spec fn component_views(list: Seq<Component>) -> Seq<Part> {
    list.map_values(|component: Component| component@)
}

/// How two values stand to each other in their order.
#[derive(Clone, Copy, Debug, PartialEq, Eq, Structural)]
pub enum Relation {
    Before,
    Same,
    After,
}

/// Compares two byte strings in dictionary order.
pub fn relate_bytes(a: &[u8], b: &[u8]) -> (relation: Relation)
    ensures
        relation is Before <==> lexical::comes_before(a@, b@, byte_before()),
        relation is Same <==> a@ == b@,
        relation is After <==> lexical::comes_before(b@, a@, byte_before()),
{
    proof {
        orders_are_total();
        lexical::irreflexive(a@, byte_before());
        if lexical::comes_before(a@, b@, byte_before()) {
            lexical::asymmetric(a@, b@, byte_before());
        }
        if lexical::comes_before(b@, a@, byte_before()) {
            lexical::asymmetric(b@, a@, byte_before());
        }
    }
    let mut i: usize = 0;
    while i < a.len() && i < b.len()
        invariant
            i <= a@.len(),
            i <= b@.len(),
            forall|j: int| 0 <= j < i ==> a@[j] == b@[j],
            lexical::comes_before(a@, b@, byte_before()) ==> !lexical::comes_before(
                b@,
                a@,
                byte_before(),
            ) && a@ != b@,
            lexical::comes_before(b@, a@, byte_before()) ==> a@ != b@,
        decreases a@.len() - i,
    {
        if a[i] < b[i] {
            assert(lexical::breaks_at(a@, b@, byte_before(), i as int));
            return Relation::Before;
        }
        if b[i] < a[i] {
            assert(lexical::breaks_at(b@, a@, byte_before(), i as int));
            return Relation::After;
        }
        i = i + 1;
    }
    if i < b.len() {
        assert(lexical::breaks_at(a@, b@, byte_before(), i as int));
        Relation::Before
    } else if i < a.len() {
        assert(lexical::breaks_at(b@, a@, byte_before(), i as int));
        Relation::After
    } else {
        assert(a@ =~= b@);
        Relation::Same
    }
}

fn rank(component: &Component) -> (rank: u8)
    ensures
        rank == part_rank(component@),
{
    match component {
        Component::Root => 0,
        Component::Current => 1,
        Component::Parent => 2,
        Component::Name(_) => 3,
    }
}

/// Compares two components.
pub fn relate_components(a: &Component, b: &Component) -> (relation: Relation)
    ensures
        relation is Before <==> part_before()(a@, b@),
        relation is Same <==> a@ == b@,
        relation is After <==> part_before()(b@, a@),
{
    match (a, b) {
        (Component::Name(first), Component::Name(second)) => relate_bytes(
            first.as_slice(),
            second.as_slice(),
        ),
        _ => {
            let first: u8 = rank(a);
            let second: u8 = rank(b);
            if first < second {
                Relation::Before
            } else if second < first {
                Relation::After
            } else {
                Relation::Same
            }
        },
    }
}

/// Which component the piece at `index` contributes, if any.
fn component_at(index: usize, piece: Vec<u8>) -> (component: Option<Component>)
    ensures
        component is Some <==> part_at(index as int, piece@) is Some,
        component is Some ==> component->0@ == part_at(index as int, piece@)->0,
{
    if piece.len() == 0 {
        return None;
    }
    if piece[0] == DOT {
        if piece.len() == 1 {
            assert(piece@ =~= seq![DOT]);
            return if index == 0 {
                Some(Component::Current)
            } else {
                None
            };
        }
        if piece.len() == 2 && piece[1] == DOT {
            assert(piece@ =~= seq![DOT, DOT]);
            return Some(Component::Parent);
        }
    }
    assert(piece@ != seq![DOT]) by {
        assert(seq![DOT].len() == 1 && seq![DOT][0] == DOT);
    }
    assert(piece@ != seq![DOT, DOT]) by {
        assert(seq![DOT, DOT].len() == 2 && seq![DOT, DOT][0] == DOT && seq![DOT, DOT][1] == DOT);
    }
    Some(Component::Name(piece))
}

/// The root is no piece of a path.
pub proof fn parts_have_no_root(pieces: Seq<Seq<u8>>)
    ensures
        forall|i: int| 0 <= i < parts(pieces).len() ==> !(#[trigger] parts(pieces)[i] is Root),
    decreases pieces.len(),
{
    if pieces.len() > 0 {
        parts_have_no_root(pieces.drop_last());
    }
}

/// A path is absolute in every spelling or in none.
pub proof fn absolute_is_shared(a: Seq<u8>, b: Seq<u8>)
    requires
        same_path(a, b),
        absolute(a),
    ensures
        absolute(b),
{
    assert(components(a)[0] == Part::Root);
    if !absolute(b) {
        parts_have_no_root(pieces(b));
        assert(components(b) =~= parts(pieces(b)));
    }
}

/// There is always a last piece.
proof fn pieces_not_empty(path: Seq<u8>)
    ensures
        pieces(path).len() > 0,
        pieces(path).len() <= path.len() + 1,
    decreases path.len(),
{
    if path.len() > 0 {
        pieces_not_empty(path.drop_last());
    }
}

/// Takes a path apart.
pub fn split_components(path: &[u8]) -> (list: Vec<Component>)
    ensures
        component_views(list@) == components(path@),
{
    let mut list: Vec<Component> = Vec::new();
    if path.len() > 0 && path[0] == SEPARATOR {
        list.push(Component::Root);
    }
    assert(component_views(list@) =~= root_parts(path@));
    let mut piece: Vec<u8> = Vec::new();
    let mut count: usize = 0;
    let mut i: usize = 0;
    assert(path@.take(0) =~= Seq::<u8>::empty());
    assert(pieces(path@.take(0)).drop_last() =~= Seq::<Seq<u8>>::empty());
    assert(component_views(list@) =~= root_parts(path@) + parts(
        pieces(path@.take(0)).drop_last(),
    ));
    while i < path.len()
        invariant
            i <= path@.len(),
            count <= i,
            pieces(path@.take(i as int)).len() == count + 1,
            piece@ == pieces(path@.take(i as int)).last(),
            component_views(list@) == root_parts(path@) + parts(
                pieces(path@.take(i as int)).drop_last(),
            ),
        decreases path@.len() - i,
    {
        let ghost seen = path@.take(i as int);
        let ghost before = list@;
        let byte: u8 = path[i];
        assert(path@.take(i + 1).drop_last() =~= seen);
        assert(path@.take(i + 1).last() == byte);
        if byte == SEPARATOR {
            assert(pieces(path@.take(i + 1)).drop_last() =~= pieces(seen));
            match component_at(count, piece) {
                Some(component) => {
                    list.push(component);
                    assert(component_views(list@) =~= component_views(before).push(component@));
                },
                None => {},
            }
            assert(component_views(list@) =~= root_parts(path@) + parts(pieces(seen)));
            piece = Vec::new();
            count = count + 1;
            assert(piece@ =~= Seq::<u8>::empty());
        } else {
            piece.push(byte);
            assert(pieces(path@.take(i + 1)).drop_last() =~= pieces(seen).drop_last());
        }
        i = i + 1;
    }
    assert(path@.take(i as int) =~= path@);
    let ghost before = list@;
    match component_at(count, piece) {
        Some(component) => {
            list.push(component);
            assert(component_views(list@) =~= component_views(before).push(component@));
        },
        None => {},
    }
    assert(component_views(list@) =~= components(path@));
    list
}

/// Compares two paths by their components.
pub fn relate_paths(a: &[u8], b: &[u8]) -> (relation: Relation)
    ensures
        relation is Before <==> path_before(a@, b@),
        relation is Same <==> same_path(a@, b@),
        relation is After <==> path_before(b@, a@),
{
    let first = split_components(a);
    let second = split_components(b);
    let ghost x = components(a@);
    let ghost y = components(b@);
    proof {
        orders_are_total();
        lexical::irreflexive(x, part_before());
        if lexical::comes_before(x, y, part_before()) {
            lexical::asymmetric(x, y, part_before());
        }
        if lexical::comes_before(y, x, part_before()) {
            lexical::asymmetric(y, x, part_before());
        }
    }
    let mut i: usize = 0;
    while i < first.len() && i < second.len()
        invariant
            x == component_views(first@),
            y == component_views(second@),
            x == components(a@),
            y == components(b@),
            i <= x.len(),
            i <= y.len(),
            forall|j: int| 0 <= j < i ==> x[j] == y[j],
            lexical::comes_before(x, y, part_before()) ==> !lexical::comes_before(
                y,
                x,
                part_before(),
            ) && x != y,
            lexical::comes_before(y, x, part_before()) ==> x != y,
        decreases x.len() - i,
    {
        assert(x[i as int] == first@[i as int]@ && y[i as int] == second@[i as int]@);
        match relate_components(&first[i], &second[i]) {
            Relation::Before => {
                assert(lexical::breaks_at(x, y, part_before(), i as int));
                return Relation::Before;
            },
            Relation::After => {
                assert(lexical::breaks_at(y, x, part_before(), i as int));
                return Relation::After;
            },
            Relation::Same => {},
        }
        i = i + 1;
    }
    if i < second.len() {
        assert(lexical::breaks_at(x, y, part_before(), i as int));
        Relation::Before
    } else if i < first.len() {
        assert(lexical::breaks_at(y, x, part_before(), i as int));
        Relation::After
    } else {
        assert(x =~= y);
        Relation::Same
    }
}

/// `n` is the length of the shortest prefix of `path` that has the components `target`.
pub open spec fn shortest_prefix(path: Seq<u8>, target: Seq<Part>, n: int) -> bool {
    &&& 0 <= n <= path.len()
    &&& components(path.take(n)) == target
    &&& forall|k: int| 0 <= k < n ==> components(#[trigger] path.take(k)) != target
}

/// The path without its last component: the shortest prefix that has all the others. The root
/// and the empty path have none.
pub open spec fn parent_path(path: Seq<u8>) -> Option<Seq<u8>> {
    let all = components(path);
    if all.len() == 0 || all.last() is Root {
        None
    } else {
        Some(path.take(choose|n: int| shortest_prefix(path, all.drop_last(), n)))
    }
}

proof fn shortest_prefix_unique(path: Seq<u8>, target: Seq<Part>, n: int, m: int)
    requires
        shortest_prefix(path, target, n),
        shortest_prefix(path, target, m),
    ensures
        n == m,
{
    assert(components(path.take(n)) == components(path.take(m)));
}

/// The number of bytes that the components of a path are spelled with.
spec fn weight(list: Seq<Part>) -> nat
    decreases list.len(),
{
    if list.len() == 0 {
        0
    } else {
        weight(list.drop_last()) + part_weight(list.last())
    }
}

spec fn part_weight(part: Part) -> nat {
    match part {
        Part::Root => 1,
        Part::Current => 1,
        Part::Parent => 2,
        Part::Name(name) => name.len(),
    }
}

proof fn weight_of_sum(a: Seq<Part>, b: Seq<Part>)
    ensures
        weight(a + b) == weight(a) + weight(b),
    decreases b.len(),
{
    if b.len() == 0 {
        assert(a + b =~= a);
    } else {
        assert((a + b).drop_last() =~= a + b.drop_last());
        weight_of_sum(a, b.drop_last());
    }
}

/// The last piece of `path` is one that contributes a component.
spec fn ends_in_component(path: Seq<u8>) -> bool {
    part_at(pieces(path).len() - 1, pieces(path).last()) is Some
}

/// One more byte never makes the components lighter, and makes them heavier where it belongs to
/// a component.
proof fn weight_grows(path: Seq<u8>)
    requires
        path.len() > 0,
    ensures
        weight(components(path.drop_last())) <= weight(components(path)),
        path.last() != SEPARATOR && ends_in_component(path) ==> weight(
            components(path.drop_last()),
        ) < weight(components(path)),
{
    let shorter = path.drop_last();
    weight_of_sum(root_parts(shorter), parts(pieces(shorter)));
    weight_of_sum(root_parts(path), parts(pieces(path)));
    pieces_not_empty(shorter);
    reveal_with_fuel(weight, 3);
    assert(weight(root_parts(shorter)) <= weight(root_parts(path))) by {
        if shorter.len() > 0 {
            assert(shorter[0] == path[0]);
        }
    }
    let old_pieces = pieces(shorter);
    let new_pieces = pieces(path);
    let index = old_pieces.len() - 1;
    if path.last() == SEPARATOR {
        assert(new_pieces.drop_last() =~= old_pieces);
        assert(parts(new_pieces) == parts(old_pieces));
    } else {
        assert(new_pieces.drop_last() =~= old_pieces.drop_last());
        let old_piece = old_pieces.last();
        let new_piece = new_pieces.last();
        assert(new_piece == old_piece.push(path.last()));
        assert(new_piece.len() == old_piece.len() + 1);
        let common = parts(old_pieces.drop_last());
        if part_at(index, old_piece) is Some {
            assert(common.push(part_at(index, old_piece)->0).drop_last() =~= common);
            assert(part_weight(part_at(index, old_piece)->0) == old_piece.len());
            assert(new_piece.len() > 1);
            assert(seq![DOT].len() == 1);
            assert(part_at(index, new_piece) is Some);
        }
        if part_at(index, new_piece) is Some {
            assert(common.push(part_at(index, new_piece)->0).drop_last() =~= common);
            assert(part_weight(part_at(index, new_piece)->0) == new_piece.len());
        }
    }
}

proof fn weight_monotone(path: Seq<u8>, k: int, n: int)
    requires
        0 <= k <= n <= path.len(),
    ensures
        weight(components(path.take(k))) <= weight(components(path.take(n))),
    decreases n - k,
{
    if k < n {
        weight_monotone(path, k, n - 1);
        assert(path.take(n).drop_last() =~= path.take(n - 1));
        weight_grows(path.take(n));
    }
}

/// No shorter prefix has the components of `path.take(n)`.
spec fn tight(path: Seq<u8>, n: int) -> bool {
    &&& 0 <= n <= path.len()
    &&& forall|k: int| 0 <= k < n ==> components(#[trigger] path.take(k)) != components(
        path.take(n),
    )
}

proof fn tight_after_component(path: Seq<u8>, n: int)
    requires
        0 < n <= path.len(),
        path[n - 1] != SEPARATOR,
        ends_in_component(path.take(n)),
    ensures
        tight(path, n),
{
    assert(path.take(n).drop_last() =~= path.take(n - 1));
    assert(path.take(n).last() == path[n - 1]);
    weight_grows(path.take(n));
    assert forall|k: int| 0 <= k < n implies components(#[trigger] path.take(k)) != components(
        path.take(n),
    ) by {
        weight_monotone(path, k, n - 1);
    }
}

proof fn tight_at_root(path: Seq<u8>)
    requires
        absolute(path),
    ensures
        tight(path, 1),
        components(path.take(1)) =~= seq![Part::Root],
        tight(path, 0),
{
    assert(path.take(1).drop_last() =~= Seq::<u8>::empty());
    reveal_with_fuel(pieces, 2);
    reveal_with_fuel(parts, 3);
    assert(path.take(1).last() == SEPARATOR);
    assert(pieces(path.take(1)) =~= seq![Seq::<u8>::empty(), Seq::<u8>::empty()]);
    assert(pieces(path.take(1)).drop_last() =~= seq![Seq::<u8>::empty()]);
    assert(seq![Seq::<u8>::empty()].drop_last() =~= Seq::<Seq<u8>>::empty());
    assert(parts(pieces(path.take(1))) =~= Seq::<Part>::empty());
    assert(components(path.take(1)) =~= seq![Part::Root]);
    assert(path.take(0) =~= Seq::<u8>::empty());
    components_of_empty();
    assert(seq![Part::Root].len() == 1);
}

proof fn components_of_empty()
    ensures
        pieces(Seq::<u8>::empty()) =~= seq![Seq::<u8>::empty()],
        components(Seq::<u8>::empty()) =~= Seq::<Part>::empty(),
{
    reveal_with_fuel(parts, 2);
    assert(seq![Seq::<u8>::empty()].drop_last() =~= Seq::<Seq<u8>>::empty());
}

/// Whether the bytes from `start` to `end`, as the piece at `index`, contribute a component.
fn piece_counts(path: &[u8], start: usize, end: usize, index: usize) -> (counts: bool)
    requires
        start <= end <= path@.len(),
    ensures
        counts == part_at(index as int, path@.subrange(start as int, end as int)) is Some,
{
    let ghost piece = path@.subrange(start as int, end as int);
    if start == end {
        return false;
    }
    if end - start == 1 && path[start] == DOT {
        assert(piece =~= seq![DOT]);
        return index == 0;
    }
    assert(piece != seq![DOT]) by {
        assert(seq![DOT].len() == 1 && seq![DOT][0] == DOT);
        assert(piece.len() == end - start);
        assert(piece[0] == path@[start as int]);
    }
    true
}

/// The parent of a path.
pub fn parent(path: &[u8]) -> (result: Option<Vec<u8>>)
    ensures
        result is Some <==> parent_path(path@) is Some,
        result is Some ==> result->0@ == parent_path(path@)->0,
{
    let root: usize = if path.len() > 0 && path[0] == SEPARATOR {
        1
    } else {
        0
    };
    let mut cut: usize = root;
    let mut end: usize = root;
    let mut any: bool = false;
    let mut start: usize = 0;
    let mut count: usize = 0;
    let mut i: usize = 0;
    proof {
        components_of_empty();
        assert(path@.take(0) =~= Seq::<u8>::empty());
        if absolute(path@) {
            tight_at_root(path@);
        }
        assert(pieces(path@.take(0)).drop_last() =~= Seq::<Seq<u8>>::empty());
        assert(path@.subrange(0, 0) =~= Seq::<u8>::empty());
        assert(components(path@.take(root as int)) =~= root_parts(path@) + parts(
            pieces(path@.take(0)).drop_last(),
        ));
    }
    loop
        invariant_except_break
            components(path@.take(end as int)) == root_parts(path@) + parts(
                pieces(path@.take(i as int)).drop_last(),
            ),
            !any ==> parts(pieces(path@.take(i as int)).drop_last()).len() == 0,
        invariant
            i <= path@.len(),
            start <= i,
            count <= start,
            root == (if absolute(path@) {
                1int
            } else {
                0
            }),
            pieces(path@.take(i as int)).len() == count + 1,
            path@.subrange(start as int, i as int) == pieces(path@.take(i as int)).last(),
            forall|k: int| start <= k < i ==> path@[k] != SEPARATOR,
            end <= path@.len(),
            cut <= path@.len(),
            tight(path@, end as int),
            any ==> {
                let done = components(path@.take(end as int));
                &&& done.len() > 0
                &&& !(done.last() is Root)
                &&& components(path@.take(cut as int)) == done.drop_last()
                &&& tight(path@, cut as int)
            },
        ensures
            i == path@.len(),
            any ==> shortest_prefix(path@, components(path@).drop_last(), cut as int),
            any ==> components(path@).len() > 0 && !(components(path@).last() is Root),
            !any ==> components(path@) == root_parts(path@),
        decreases path@.len() - i,
    {
        let ghost seen = path@.take(i as int);
        let ghost earlier = parts(pieces(seen).drop_last());
        if i == path.len() || path[i] == SEPARATOR {
            if piece_counts(path, start, i, count) {
                proof {
                    let part = part_at(count as int, pieces(seen).last())->0;
                    assert(parts(pieces(seen)) == earlier.push(part));
                    if i > 0 {
                        assert(seen[0] == path@[0]);
                    }
                    assert(components(seen) =~= (root_parts(path@) + earlier).push(part));
                    assert(components(seen).drop_last() =~= root_parts(path@) + earlier);
                    assert(path@[i - 1] != SEPARATOR);
                    tight_after_component(path@, i as int);
                }
                cut = end;
                end = i;
                any = true;
            } else {
                assert(parts(pieces(seen)) == earlier);
            }
            assert(components(path@.take(end as int)) == root_parts(path@) + parts(pieces(seen)));
            if i == path.len() {
                proof {
                    assert(seen =~= path@);
                    if !any {
                        assert(parts(pieces(path@)) =~= Seq::<Part>::empty());
                        assert(components(path@) =~= root_parts(path@));
                    }
                }
                break;
            }
            count = count + 1;
            start = i + 1;
            proof {
                assert(path@.take(i + 1).drop_last() =~= seen);
                assert(pieces(path@.take(i + 1)).drop_last() =~= pieces(seen));
                assert(path@.subrange(i + 1, i + 1) =~= Seq::<u8>::empty());
            }
        } else {
            proof {
                assert(path@.take(i + 1).drop_last() =~= seen);
                assert(path@.take(i + 1).last() == path@[i as int]);
                assert(pieces(path@.take(i + 1)).drop_last() =~= pieces(seen).drop_last());
                assert(path@.subrange(start as int, i + 1) =~= path@.subrange(
                    start as int,
                    i as int,
                ).push(path@[i as int]));
            }
        }
        i = i + 1;
    }
    if !any {
        return None;
    }
    let (before, _) = path.split_at(cut);
    proof {
        let chosen = choose|n: int|
            shortest_prefix(path@, components(path@).drop_last(), n);
        shortest_prefix_unique(path@, components(path@).drop_last(), cut as int, chosen);
        assert(before@ =~= path@.take(cut as int));
    }
    Some(copy_bytes(before))
}

/// The bytes of ASCII text.
pub open spec fn ascii(text: Seq<char>) -> Seq<u8> {
    Seq::new(text.len(), |i: int| text[i] as u8)
}

/// `name` placed below `base`; an absolute `name` stands by itself.
pub open spec fn joined(base: Seq<u8>, name: Seq<u8>) -> Seq<u8> {
    if absolute(name) {
        name
    } else if base.len() > 0 && base.last() != SEPARATOR {
        base.push(SEPARATOR) + name
    } else {
        base + name
    }
}

/// Places `name` below `base`.
pub fn join(base: &[u8], name: &[u8]) -> (path: Vec<u8>)
    ensures
        path@ == joined(base@, name@),
{
    if name.len() > 0 && name[0] == SEPARATOR {
        return copy_bytes(name);
    }
    let mut path = copy_bytes(base);
    if base.len() > 0 && base[base.len() - 1] != SEPARATOR {
        path.push(SEPARATOR);
    }
    path.extend_from_slice(name);
    assert(path@ =~= joined(base@, name@));
    path
}

/// A path has a file name where its last component is a name.
pub open spec fn has_file_name(path: Seq<u8>) -> bool {
    components(path).len() > 0 && components(path).last() is Name
}

/// The path with its file name, if it has one, replaced by `name`.
pub open spec fn renamed(path: Seq<u8>, name: Seq<u8>) -> Seq<u8> {
    if has_file_name(path) {
        joined(parent_path(path)->0, name)
    } else {
        joined(path, name)
    }
}

/// Replaces the file name of a path.
pub fn with_file_name(path: &[u8], name: &[u8]) -> (result: Vec<u8>)
    ensures
        result@ == renamed(path@, name@),
{
    let list = split_components(path);
    assert(component_views(list@) == components(path@));
    if list.len() > 0 {
        assert(components(path@).last() == list@.last()@);
        if let Component::Name(_) = &list[list.len() - 1] {
            match parent(path) {
                Some(directory) => {
                    return join(directory.as_slice(), name);
                },
                None => {
                    assert(false);
                },
            }
        }
    }
    join(path, name)
}

/// A name that a directory entry can have: not empty, without separators, neither `.` nor `..`.
pub open spec fn plain_name(name: Seq<u8>) -> bool {
    &&& name.len() > 0
    &&& forall|i: int| 0 <= i < name.len() ==> name[i] != SEPARATOR
    &&& name != seq![DOT]
    &&& name != seq![DOT, DOT]
}

proof fn pieces_of_extension(base: Seq<u8>, name: Seq<u8>)
    requires
        forall|i: int| 0 <= i < name.len() ==> name[i] != SEPARATOR,
    ensures
        pieces(base + name) == pieces(base).drop_last().push(pieces(base).last() + name),
    decreases name.len(),
{
    pieces_not_empty(base);
    if name.len() == 0 {
        assert(base + name =~= base);
        assert(pieces(base).last() + name =~= pieces(base).last());
        assert(pieces(base).drop_last().push(pieces(base).last()) =~= pieces(base));
    } else {
        let shorter = name.drop_last();
        pieces_of_extension(base, shorter);
        assert((base + name).drop_last() =~= base + shorter);
        assert((base + name).last() == name.last());
        assert(pieces(base + name) =~= pieces(base).drop_last().push(
            (pieces(base).last() + shorter).push(name.last()),
        ));
        assert((pieces(base).last() + shorter).push(name.last()) =~= pieces(base).last() + name);
    }
}

/// A plain name placed below a path becomes its last component.
pub proof fn join_adds_component(base: Seq<u8>, name: Seq<u8>)
    requires
        plain_name(name),
    ensures
        components(joined(base, name)) == components(base).push(Part::Name(name)),
{
    pieces_not_empty(base);
    assert(name[0] != SEPARATOR);
    let path = joined(base, name);
    if base.len() > 0 && base.last() != SEPARATOR {
        let with_separator = base.push(SEPARATOR);
        assert(with_separator.drop_last() =~= base);
        pieces_of_extension(with_separator, name);
        assert(pieces(with_separator).drop_last() =~= pieces(base));
        assert(pieces(with_separator).last() + name =~= name);
        assert(pieces(path) == pieces(base).push(name));
        assert(pieces(path).drop_last() =~= pieces(base));
        assert(path[0] == base[0]);
    } else {
        pieces_of_extension(base, name);
        assert(pieces(base).last() =~= Seq::<u8>::empty());
        assert(pieces(base).last() + name =~= name);
        assert(pieces(path).drop_last() =~= pieces(base).drop_last());
        assert(parts(pieces(base)) == parts(pieces(base).drop_last()));
        if base.len() > 0 {
            assert(path[0] == base[0]);
        } else {
            assert(path =~= name);
        }
    }
    assert(parts(pieces(path)) == parts(pieces(base)).push(Part::Name(name)));
    assert(root_parts(path) == root_parts(base));
    assert(components(path) =~= components(base).push(Part::Name(name)));
}

/// A parent is spelled with no byte to spare.
proof fn parent_is_shortest(path: Seq<u8>, n: int)
    requires
        parent_path(path) is Some,
        shortest_prefix(path, components(path).drop_last(), n),
    ensures
        parent_path(path)->0 == path.take(n),
{
    let chosen = choose|m: int| shortest_prefix(path, components(path).drop_last(), m);
    shortest_prefix_unique(path, components(path).drop_last(), n, chosen);
}

/// The parent of a plain name placed below `directory` is `directory`, where that is spelled
/// without a byte to spare.
proof fn parent_of_join(directory: Seq<u8>, name: Seq<u8>)
    requires
        plain_name(name),
        tight(directory, directory.len() as int),
    ensures
        parent_path(joined(directory, name)) == Some(directory),
{
    let path = joined(directory, name);
    let n = directory.len() as int;
    join_adds_component(directory, name);
    assert(name[0] != SEPARATOR);
    assert(path.take(n) =~= directory);
    assert(directory.take(n) =~= directory);
    assert(components(path).drop_last() =~= components(directory));
    assert forall|k: int| 0 <= k < n implies components(#[trigger] path.take(k)) != components(
        path,
    ).drop_last() by {
        assert(path.take(k) =~= directory.take(k));
    }
    assert(shortest_prefix(path, components(path).drop_last(), n));
    parent_is_shortest(path, n);
}

/// The length of the piece that ends `path`.
spec fn last_piece_len(path: Seq<u8>) -> int {
    pieces(path).last().len() as int
}

proof fn last_piece_is_suffix(path: Seq<u8>)
    ensures
        0 <= last_piece_len(path) <= path.len(),
        pieces(path).last() == path.skip(path.len() - last_piece_len(path)),
        forall|i: int|
            path.len() - last_piece_len(path) <= i < path.len() ==> path[i] != SEPARATOR,
        path.len() - last_piece_len(path) > 0 ==> path[path.len() - last_piece_len(path) - 1]
            == SEPARATOR,
    decreases path.len(),
{
    pieces_not_empty(path);
    if path.len() == 0 {
        assert(path.skip(0) =~= Seq::<u8>::empty());
    } else {
        pieces_not_empty(path.drop_last());
        last_piece_is_suffix(path.drop_last());
        if path.last() == SEPARATOR {
            assert(path.skip(path.len() as int) =~= Seq::<u8>::empty());
        } else {
            let n = path.len() - last_piece_len(path);
            assert(path.drop_last().skip(n).push(path.last()) =~= path.skip(n));
            assert forall|i: int| n <= i < path.len() implies path[i] != SEPARATOR by {
                if i < path.len() - 1 {
                    assert(path.drop_last()[i] == path[i]);
                }
            }
        }
    }
}

/// Every path that is neither empty nor the root has a parent prefix.
proof fn parent_prefix_exists(path: Seq<u8>)
    requires
        parent_path(path) is Some,
    ensures
        exists|n: int| shortest_prefix(path, components(path).drop_last(), n),
    decreases path.len(),
{
    components_of_empty();
    assert(path.len() > 0) by {
        if path.len() == 0 {
            assert(path =~= Seq::<u8>::empty());
        }
    }
    pieces_not_empty(path);
    last_piece_is_suffix(path);
    let target = components(path).drop_last();
    if ends_in_component(path) {
        let n = path.len() - last_piece_len(path);
        let head = path.take(n);
        let tail = path.skip(n);
        assert(path =~= head + tail);
        pieces_of_extension(head, tail);
        pieces_not_empty(head);
        assert(pieces(path).last() == pieces(head).last() + tail);
        assert(pieces(head).last().len() == 0);
        assert(pieces(path).drop_last() =~= pieces(head).drop_last());
        assert(parts(pieces(head)) == parts(pieces(head).drop_last()));
        let part = part_at(pieces(path).len() - 1, pieces(path).last())->0;
        assert(parts(pieces(path)) == parts(pieces(head)).push(part));
        if n > 0 {
            assert(head[0] == path[0]);
        } else {
            assert(path[0] != SEPARATOR);
        }
        assert(components(path).drop_last() =~= components(head));
        least_prefix(path, target, n);
    } else {
        let shorter = path.drop_last();
        pieces_not_empty(shorter);
        assert(parts(pieces(path)) == parts(pieces(path).drop_last()));
        assert(components(shorter) == components(path)) by {
            if path.last() == SEPARATOR {
                assert(pieces(path).drop_last() =~= pieces(shorter));
            } else {
                assert(pieces(path).drop_last() =~= pieces(shorter).drop_last());
                assert(pieces(path).last().len() > 0);
                assert(pieces(path).last() == seq![DOT]);
                assert(pieces(path).last() == pieces(shorter).last().push(path.last()));
                assert(seq![DOT].len() == 1);
                assert(pieces(shorter).last().len() == 0);
                assert(parts(pieces(shorter)) == parts(pieces(shorter).drop_last()));
            }
            if shorter.len() > 0 {
                assert(shorter[0] == path[0]);
            } else {
                assert(shorter =~= Seq::<u8>::empty());
                if absolute(path) {
                    tight_at_root(path);
                    assert(path.take(1) =~= path);
                    assert(seq![Part::Root].last() is Root);
                }
            }
        }
        parent_prefix_exists(shorter);
        let n = choose|n: int| shortest_prefix(shorter, components(shorter).drop_last(), n);
        assert(path.take(n) =~= shorter.take(n));
        least_prefix(path, target, n);
    }
}

proof fn least_prefix(path: Seq<u8>, target: Seq<Part>, n: int)
    requires
        0 <= n <= path.len(),
        components(path.take(n)) == target,
    ensures
        exists|m: int| shortest_prefix(path, target, m),
    decreases n,
{
    if exists|k: int| 0 <= k < n && components(#[trigger] path.take(k)) == target {
        let k = choose|k: int| 0 <= k < n && components(#[trigger] path.take(k)) == target;
        least_prefix(path, target, k);
    } else {
        assert(shortest_prefix(path, target, n));
    }
}

/// What a parent is: a prefix with all the components but the last, and the shortest one.
pub proof fn parent_has_other_components(path: Seq<u8>)
    requires
        parent_path(path) is Some,
    ensures
        components(parent_path(path)->0) == components(path).drop_last(),
        parent_path(path)->0.is_prefix_of(path),
        shortest_prefix(path, components(path).drop_last(), parent_path(path)->0.len() as int),
{
    parent_prefix_exists(path);
}

/// A file put beside `path` under another plain name has the same parent.
pub proof fn renamed_stays_beside(path: Seq<u8>, name: Seq<u8>)
    requires
        has_file_name(path),
        plain_name(name),
    ensures
        parent_path(renamed(path, name)) == parent_path(path),
        components(renamed(path, name)) == components(path).drop_last().push(Part::Name(name)),
{
    parent_has_other_components(path);
    let directory = parent_path(path)->0;
    let n = directory.len() as int;
    assert(path.take(n) =~= directory);
    assert(directory.take(n) =~= directory);
    assert forall|k: int| 0 <= k < n implies components(#[trigger] directory.take(k)) != components(
        directory.take(n),
    ) by {
        assert(directory.take(k) =~= path.take(k));
    }
    parent_of_join(directory, name);
    join_adds_component(directory, name);
}

/// A file put into the parent of a path has that parent too.
pub proof fn sibling_has_same_parent(path: Seq<u8>, name: Seq<u8>)
    requires
        parent_path(path) is Some,
        plain_name(name),
    ensures
        parent_path(joined(parent_path(path)->0, name)) == parent_path(path),
{
    parent_has_other_components(path);
    let directory = parent_path(path)->0;
    let n = directory.len() as int;
    assert(path.take(n) =~= directory);
    assert(directory.take(n) =~= directory);
    assert forall|k: int| 0 <= k < n implies components(#[trigger] directory.take(k)) != components(
        directory.take(n),
    ) by {
        assert(directory.take(k) =~= path.take(k));
    }
    parent_of_join(directory, name);
}

/// A path is absolute if and only if its first byte is the separator.
pub proof fn absolute_paths_start_with_the_separator(path: Seq<u8>)
    ensures
        absolute(path) <==> path.len() > 0 && path[0] == 47,
{
}

/// The components that a piece without separators comes to after the start of a path: none where it
/// is empty or a dot.
pub open spec fn later_piece(piece: Seq<u8>) -> Seq<Part> {
    if piece.len() == 0 || piece == seq![46u8] {
        Seq::empty()
    } else if piece == seq![46u8, 46u8] {
        seq![Part::Parent]
    } else {
        seq![Part::Name(piece)]
    }
}

/// What later pieces come to.
pub proof fn later_pieces_are_names_or_parents(piece: Seq<u8>)
    ensures
        later_piece(Seq::empty()) == Seq::<Part>::empty(),
        later_piece(seq![46u8]) == Seq::<Part>::empty(),
        later_piece(seq![46u8, 46u8]) == seq![Part::Parent],
        piece.len() > 0 && piece != seq![46u8] && piece != seq![46u8, 46u8] ==> later_piece(piece)
            == seq![Part::Name(piece)],
{
    assert(seq![46u8].len() == 1);
    assert(seq![46u8, 46u8].len() == 2);
}

/// The components of a path without separators.
pub proof fn lone_piece_has_its_component(piece: Seq<u8>)
    requires
        forall|i: int| 0 <= i < piece.len() ==> piece[i] != 47,
    ensures
        piece == seq![46u8] ==> components(piece) == seq![Part::Current],
        piece != seq![46u8] ==> components(piece) == later_piece(piece),
{
    components_of_empty();
    let empty = Seq::<u8>::empty();
    pieces_of_extension(empty, piece);
    assert(empty + piece =~= piece);
    assert(pieces(empty).last() + piece =~= piece);
    assert(pieces(piece) =~= seq![piece]);
    reveal_with_fuel(parts, 2);
    assert(seq![piece].drop_last() =~= Seq::<Seq<u8>>::empty());
    assert(root_parts(piece) =~= Seq::<Part>::empty());
    assert(seq![46u8].len() == 1);
    assert(seq![46u8, 46u8].len() == 2);
    let found = part_at(0, piece);
    if found is Some {
        assert(components(piece) =~= seq![found->0]);
    } else {
        assert(components(piece) =~= Seq::<Part>::empty());
    }
}

/// What stands after a separator adds to the components of what stands before it; a separator with
/// nothing before it is the root. So repeated and trailing separators and later dots add nothing.
pub proof fn piece_after_separator_adds_its_component(base: Seq<u8>, piece: Seq<u8>)
    requires
        forall|i: int| 0 <= i < piece.len() ==> piece[i] != 47,
    ensures
        base.len() > 0 ==> components(base.push(47) + piece) == components(base) + later_piece(
            piece,
        ),
        base.len() == 0 ==> components(base.push(47) + piece) == seq![Part::Root] + later_piece(
            piece,
        ),
{
    pieces_not_empty(base);
    let head = base.push(47);
    let path = head + piece;
    assert(head.drop_last() =~= base);
    assert(pieces(head) == pieces(base).push(Seq::<u8>::empty()));
    pieces_of_extension(head, piece);
    assert(pieces(head).drop_last() =~= pieces(base));
    assert(pieces(head).last() + piece =~= piece);
    assert(pieces(path) == pieces(base).push(piece));
    assert(pieces(path).drop_last() =~= pieces(base));
    assert(seq![46u8].len() == 1);
    assert(seq![46u8, 46u8].len() == 2);
    let index = pieces(base).len() as int;
    let found = part_at(index, piece);
    assert(parts(pieces(path)) =~= parts(pieces(base)) + later_piece(piece));
    if base.len() > 0 {
        assert(path[0] == base[0]);
        assert(root_parts(path) == root_parts(base));
        assert(components(path) =~= components(base) + later_piece(piece));
    } else {
        assert(base =~= Seq::<u8>::empty());
        components_of_empty();
        assert(path[0] == 47);
        assert(root_parts(base) =~= Seq::<Part>::empty());
        assert(parts(pieces(base)) =~= components(base));
        assert(components(path) =~= seq![Part::Root] + later_piece(piece));
    }
}

/// Paths are the same if and only if they have the same components.
pub proof fn same_paths_have_the_same_components(a: Seq<u8>, b: Seq<u8>)
    ensures
        same_path(a, b) <==> components(a) == components(b),
        path_before(a, b) <==> lexical::comes_before(components(a), components(b), part_before()),
{
}

/// The root comes first, then `.`, then `..`, then names, in the order of their bytes.
pub proof fn components_are_ordered_by_kind_and_bytes(a: Seq<u8>, b: Seq<u8>, x: u8, y: u8)
    ensures
        part_before()(Part::Root, Part::Current),
        part_before()(Part::Current, Part::Parent),
        part_before()(Part::Parent, Part::Name(a)),
        part_before()(Part::Name(a), Part::Name(b)) <==> lexical::comes_before(
            a,
            b,
            byte_before(),
        ),
        byte_before()(x, y) <==> x < y,
{
}

/// A directory comes before what is in it.
pub proof fn directory_comes_before_its_content(directory: Seq<u8>, name: Seq<u8>)
    requires
        plain_name(name),
    ensures
        path_before(directory, joined(directory, name)),
{
    join_adds_component(directory, name);
    let rest = seq![Part::Name(name)];
    lexical::prefix_comes_first(components(directory), rest, part_before());
    assert(components(directory) + rest =~= components(directory).push(Part::Name(name)));
}

/// What is in one directory comes in the order of the bytes of the names.
pub proof fn siblings_come_in_byte_order(
    directory: Seq<u8>,
    start: Seq<u8>,
    x: u8,
    a: Seq<u8>,
    y: u8,
    b: Seq<u8>,
)
    requires
        x < y,
        plain_name(start.push(x) + a),
        plain_name(start.push(y) + b),
    ensures
        path_before(
            joined(directory, start.push(x) + a),
            joined(directory, start.push(y) + b),
        ),
{
    let first = start.push(x) + a;
    let second = start.push(y) + b;
    join_adds_component(directory, first);
    join_adds_component(directory, second);
    lexical::first_difference_decides(start, x, a, y, b, byte_before());
    let none = Seq::<Part>::empty();
    lexical::first_difference_decides(
        components(directory),
        Part::Name(first),
        none,
        Part::Name(second),
        none,
        part_before(),
    );
    assert(components(directory).push(Part::Name(first)) + none =~= components(directory).push(
        Part::Name(first),
    ));
    assert(components(directory).push(Part::Name(second)) + none =~= components(directory).push(
        Part::Name(second),
    ));
}

/// A joined path is the base, then a separator if the base needs one, then the name; an absolute
/// name stands by itself.
pub proof fn join_puts_the_name_after_the_base(base: Seq<u8>, name: Seq<u8>)
    ensures
        name.len() > 0 && name[0] == 47 ==> joined(base, name) == name,
        !(name.len() > 0 && name[0] == 47) && (base.len() == 0 || base[base.len() - 1] == 47)
            ==> joined(base, name) == base + name,
        !(name.len() > 0 && name[0] == 47) && base.len() > 0 && base[base.len() - 1] != 47
            ==> joined(base, name) == base + seq![47u8] + name,
{
    assert(base.push(47) + name =~= base + seq![47u8] + name);
}

/// A path has a parent unless it has no component or is the root. The parent is the prefix with all
/// components but the last, and no shorter prefix has them.
pub proof fn parent_is_the_shortest_prefix_without_the_last_component(path: Seq<u8>, k: int)
    ensures
        parent_path(path) is None <==> components(path).len() == 0 || components(path)[components(
            path,
        ).len() - 1] == Part::Root,
        parent_path(path) is Some ==> {
            let n = parent_path(path)->0.len();
            &&& n <= path.len()
            &&& parent_path(path)->0 == path.take(n as int)
            &&& components(parent_path(path)->0) == components(path).drop_last()
            &&& 0 <= k < n ==> components(path.take(k)) != components(path).drop_last()
        },
{
    if parent_path(path) is Some {
        parent_has_other_components(path);
        assert(path.take(parent_path(path)->0.len() as int) =~= parent_path(path)->0);
    }
}

/// A new file name goes into the parent where the last component is a name, and below the path
/// itself where it is not.
pub proof fn renaming_replaces_the_last_name(path: Seq<u8>, name: Seq<u8>)
    ensures
        components(path).len() > 0 && components(path)[components(path).len() - 1] is Name
            ==> parent_path(path) is Some && renamed(path, name) == joined(
            parent_path(path)->0,
            name,
        ),
        !(components(path).len() > 0 && components(path)[components(path).len() - 1] is Name)
            ==> renamed(path, name) == joined(path, name),
{
}

/// The bytes of a text are the codes of its characters.
pub proof fn ascii_has_the_codes_of_the_text(text: Seq<char>, i: int)
    ensures
        ascii(text).len() == text.len(),
        0 <= i < text.len() ==> ascii(text)[i] == text[i] as u8,
{
}

} // verus!

//! File paths as raw bytes: their components, their order, and which of them lies below another.

use vstd::prelude::*;

use crate::order::{
    byte_values, compare_bytes, lemma_lex_decided, lemma_rank_decided, lex_comparison,
    rank_comparison, Comparison,
};
use crate::text::slice_of;

verus! {

/// One component of a path.
pub enum Component {
    RootDir,
    CurDir,
    ParentDir,
    Normal(Vec<u8>),
}

/// What a [`Component`] says.
pub enum ComponentModel {
    RootDir,
    CurDir,
    ParentDir,
    Normal(Seq<u8>),
}

impl View for Component {
    type V = ComponentModel;

    open spec fn view(&self) -> ComponentModel {
        match self {
            Component::RootDir => ComponentModel::RootDir,
            Component::CurDir => ComponentModel::CurDir,
            Component::ParentDir => ComponentModel::ParentDir,
            Component::Normal(name) => ComponentModel::Normal(name@),
        }
    }
}

/// The contents of a list of components.
pub open spec fn component_models(list: Seq<Component>) -> Seq<ComponentModel> {
    list.map_values(|c: Component| c@)
}

/// How many bytes stand before the first slash.
pub open spec fn piece_length(p: Seq<u8>) -> nat
    decreases p.len(),
{
    if p.len() == 0 || p[0] == 47 {
        0
    } else {
        1 + piece_length(p.drop_first())
    }
}

/// Where the first slash stands, counted by `piece_length`.
pub proof fn lemma_piece_length(p: Seq<u8>, n: int)
    requires
        0 <= n <= p.len(),
        forall|k: int| 0 <= k < n ==> #[trigger] p[k] != 47,
        n == p.len() || p[n] == 47,
    ensures
        piece_length(p) == n,
    decreases n,
{
    if n > 0 {
        assert(p[0] != 47);
        let t = p.drop_first();
        assert forall|k: int| 0 <= k < n - 1 implies #[trigger] t[k] != 47 by {
            assert(t[k] == p[k + 1]);
        }
        lemma_piece_length(t, n - 1);
    }
}

/// The component that the text between two slashes stands for: none where it is empty or a single
/// dot.
pub open spec fn piece_components(piece: Seq<u8>) -> Seq<ComponentModel> {
    if piece.len() == 0 || piece == seq![46u8] {
        seq![]
    } else if piece == seq![46u8, 46u8] {
        seq![ComponentModel::ParentDir]
    } else {
        seq![ComponentModel::Normal(piece)]
    }
}

/// The components that the texts between the slashes stand for, in order.
pub open spec fn inner_components(p: Seq<u8>) -> Seq<ComponentModel>
    decreases p.len(),
{
    let n = piece_length(p);
    if n >= p.len() {
        piece_components(p)
    } else {
        piece_components(p.take(n as int)) + inner_components(p.skip(n as int + 1))
    }
}

/// The components of a path. A leading slash is the root directory; a dot counts only where the
/// path begins with it.
pub open spec fn components(p: Seq<u8>) -> Seq<ComponentModel> {
    let front = if p.len() > 0 && p[0] == 47 {
        seq![ComponentModel::RootDir]
    } else if p.len() > 0 && p[0] == 46 && (p.len() == 1 || p[1] == 47) {
        seq![ComponentModel::CurDir]
    } else {
        seq![]
    };
    front + inner_components(p)
}

/// Adds the component that the text between two slashes stands for.
fn push_piece(parts: &mut Vec<Component>, piece: Vec<u8>)
    ensures
        component_models(final(parts)@) == component_models(old(parts)@) + piece_components(piece@),
{
    let ghost before = component_models(parts@);
    let ghost bytes = piece@;
    if piece.len() == 0 || (piece.len() == 1 && piece[0] == 46) {
        assert(bytes.len() == 1 ==> bytes =~= seq![46u8]);
        assert(component_models(parts@) =~= before + piece_components(bytes));
    } else if piece.len() == 2 && piece[0] == 46 && piece[1] == 46 {
        assert(bytes =~= seq![46u8, 46u8]);
        parts.push(Component::ParentDir);
        assert(component_models(parts@) =~= before + piece_components(bytes));
    } else {
        assert(bytes != seq![46u8]);
        assert(bytes != seq![46u8, 46u8]);
        parts.push(Component::Normal(piece));
        assert(component_models(parts@) =~= before + piece_components(bytes));
    }
}

/// Cuts a path into its components.
pub fn split_components(path: &[u8]) -> (parts: Vec<Component>)
    ensures
        component_models(parts@) == components(path@),
{
    let mut parts: Vec<Component> = Vec::new();
    if path.len() > 0 && path[0] == 47 {
        parts.push(Component::RootDir);
    } else if path.len() > 0 && path[0] == 46 && (path.len() == 1 || path[1] == 47) {
        parts.push(Component::CurDir);
    }
    let ghost front = component_models(parts@);
    assert(components(path@) =~= front + inner_components(path@));
    let mut i: usize = 0;
    assert(path@.skip(0) =~= path@);
    loop
        invariant
            i <= path@.len(),
            components(path@) =~= component_models(parts@) + inner_components(path@.skip(i as int)),
        decreases path@.len() - i,
    {
        let ghost rest = path@.skip(i as int);
        let mut j: usize = i;
        while j < path.len() && path[j] != 47
            invariant
                i <= j <= path@.len(),
                forall|k: int| i <= k < j ==> #[trigger] path@[k] != 47,
            decreases path@.len() - j,
        {
            j += 1;
        }
        proof {
            lemma_piece_length(rest, j - i);
            assert(rest.take(j - i) =~= path@.subrange(i as int, j as int));
        }
        push_piece(&mut parts, slice_of(path, i, j));
        if j == path.len() {
            assert(rest =~= path@.subrange(i as int, j as int));
            return parts;
        }
        assert(rest.skip(j - i + 1) =~= path@.skip(j + 1));
        i = j + 1;
    }
}

/// The place of a component in the order of components: the root, a dot, two dots, then the names
/// by their bytes.
pub open spec fn component_rank(c: ComponentModel) -> Seq<int> {
    match c {
        ComponentModel::RootDir => seq![0int],
        ComponentModel::CurDir => seq![1int],
        ComponentModel::ParentDir => seq![2int],
        ComponentModel::Normal(name) => seq![3int] + byte_values(name),
    }
}

/// The place of a path in the order of paths, which goes by components.
pub open spec fn path_rank(p: Seq<u8>) -> Seq<Seq<int>> {
    components(p).map_values(|c: ComponentModel| component_rank(c))
}

/// Different components have different ranks.
pub proof fn lemma_component_rank(a: ComponentModel, b: ComponentModel)
    ensures
        component_rank(a) == component_rank(b) <==> a == b,
{
    if component_rank(a) == component_rank(b) {
        assert(component_rank(a)[0] == component_rank(b)[0]);
        if let ComponentModel::Normal(x) = a {
            if let ComponentModel::Normal(y) = b {
                assert(component_rank(a).len() == 1 + x.len());
                assert(component_rank(b).len() == 1 + y.len());
                assert forall|i: int| 0 <= i < x.len() implies x[i] == y[i] by {
                    assert(component_rank(a)[i + 1] == x[i] as int);
                    assert(component_rank(b)[i + 1] == y[i] as int);
                }
                assert(x =~= y);
            }
        }
    }
}

/// The kind of a component, in the order of components.
fn component_kind(c: &Component) -> (kind: u8)
    ensures
        kind as int == component_rank(c@)[0],
        kind == 3 <==> c@ is Normal,
{
    match c {
        Component::RootDir => 0,
        Component::CurDir => 1,
        Component::ParentDir => 2,
        Component::Normal(_) => 3,
    }
}

/// Names are ordered by what follows the kind.
proof fn lemma_names_by_bytes(x: Seq<u8>, y: Seq<u8>)
    ensures
        lex_comparison(
            component_rank(ComponentModel::Normal(x)),
            component_rank(ComponentModel::Normal(y)),
        ) == lex_comparison(byte_values(x), byte_values(y)),
{
    let a = component_rank(ComponentModel::Normal(x));
    let b = component_rank(ComponentModel::Normal(y));
    assert(a.drop_first() =~= byte_values(x));
    assert(b.drop_first() =~= byte_values(y));
    if byte_values(x) == byte_values(y) {
        assert(a =~= b);
    }
}

/// How one component stands to another.
pub fn compare_components(a: &Component, b: &Component) -> (comparison: Comparison)
    ensures
        comparison == lex_comparison(component_rank(a@), component_rank(b@)),
{
    let left = component_kind(a);
    let right = component_kind(b);
    if left == right {
        match (a, b) {
            (Component::Normal(x), Component::Normal(y)) => {
                proof {
                    lemma_names_by_bytes(x@, y@);
                }
                compare_bytes(x.as_slice(), y.as_slice())
            },
            _ => Comparison::Same,
        }
    } else {
        proof {
            lemma_lex_decided(component_rank(a@), component_rank(b@), 0);
        }
        if left < right {
            Comparison::Before
        } else {
            Comparison::After
        }
    }
}

/// How one path stands to another.
pub fn compare_paths(a: &[u8], b: &[u8]) -> (comparison: Comparison)
    ensures
        comparison == rank_comparison(path_rank(a@), path_rank(b@)),
{
    let left = split_components(a);
    let right = split_components(b);
    let ghost x = path_rank(a@);
    let ghost y = path_rank(b@);
    let mut i: usize = 0;
    while i < left.len() && i < right.len()
        invariant
            component_models(left@) == components(a@),
            component_models(right@) == components(b@),
            x == path_rank(a@),
            y == path_rank(b@),
            left@.len() == x.len(),
            right@.len() == y.len(),
            i <= left@.len(),
            i <= right@.len(),
            forall|k: int| 0 <= k < i ==> #[trigger] x[k] == y[k],
        decreases left@.len() - i,
    {
        assert(x[i as int] == component_rank(component_models(left@)[i as int]));
        assert(y[i as int] == component_rank(component_models(right@)[i as int]));
        let here = compare_components(&left[i], &right[i]);
        match here {
            Comparison::Same => {},
            _ => {
                proof {
                    lemma_rank_decided(x, y, i as int);
                }
                return here;
            },
        }
        i += 1;
    }
    proof {
        lemma_rank_decided(x, y, i as int);
    }
    if i == left.len() && i == right.len() {
        Comparison::Same
    } else if i == left.len() {
        Comparison::Before
    } else {
        Comparison::After
    }
}

/// `base` is `path` itself or one of the directories above it, component by component.
pub open spec fn lies_below(path: Seq<u8>, base: Seq<u8>) -> bool {
    components(base).is_prefix_of(components(path))
}

/// Whether `base` is `path` itself or one of the directories above it.
pub fn starts_with(path: &[u8], base: &[u8]) -> (below: bool)
    ensures
        below == lies_below(path@, base@),
{
    let parts = split_components(path);
    let front = split_components(base);
    if front.len() > parts.len() {
        return false;
    }
    let ghost whole = components(path@);
    let ghost wanted = components(base@);
    for i in 0..front.len()
        invariant
            whole == components(path@),
            wanted == components(base@),
            component_models(parts@) == whole,
            component_models(front@) == wanted,
            front@.len() == wanted.len(),
            parts@.len() == whole.len(),
            front@.len() <= parts@.len(),
            forall|k: int| 0 <= k < i ==> #[trigger] wanted[k] == whole[k],
    {
        assert(whole[i as int] == component_models(parts@)[i as int]);
        assert(wanted[i as int] == component_models(front@)[i as int]);
        proof {
            lemma_component_rank(parts@[i as int]@, front@[i as int]@);
        }
        match compare_components(&parts[i], &front[i]) {
            Comparison::Same => {},
            _ => {
                assert(wanted[i as int] != whole[i as int]);
                assert(whole.subrange(0, wanted.len() as int)[i as int] == whole[i as int]);
                return false;
            },
        }
    }
    assert(wanted =~= whole.subrange(0, wanted.len() as int));
    true
}

} // verus!

//! In what order paths and connections are listed.

use vstd::prelude::*;

use crate::address::address_text;
use crate::order::{
    char_values, lemma_lex_decided, lemma_rank_decided, lex_before, lex_before_is_total,
    lex_comparison, rank_before, rank_before_is_total, rank_comparison, Comparison,
};
use crate::paths::{component_rank, components, path_rank, ComponentModel};
use crate::sockets::{key_place, KeyModel, SocketProtocol};
use crate::table::{ascending, lookup, placed, Keyed};

verus! {

/// The byte strings part at this place, and the first comes before the second: it ends there, or has
/// the smaller byte.
pub open spec fn parts_before(x: Seq<u8>, y: Seq<u8>, k: int) -> bool {
    &&& 0 <= k <= x.len() && k < y.len()
    &&& forall|i: int| 0 <= i < k ==> x[i] == y[i]
    &&& k == x.len() || x[k] < y[k]
}

/// Paths are ordered by their components. Where one path has all components of another and more, the
/// shorter comes first.
pub proof fn shorter_paths_come_first(p: Seq<u8>, q: Seq<u8>)
    requires
        components(p).len() < components(q).len(),
        forall|i: int| 0 <= i < components(p).len() ==> components(p)[i] == components(q)[i],
    ensures
        rank_before(path_rank(p), path_rank(q)),
        !rank_before(path_rank(q), path_rank(p)),
{
    lemma_rank_decided(path_rank(p), path_rank(q), components(p).len() as int);
    lemma_rank_decided(path_rank(q), path_rank(p), components(p).len() as int);
}

/// Where two paths part in a name, the bytes of the names decide.
pub proof fn names_are_ordered_by_their_bytes(
    p: Seq<u8>,
    q: Seq<u8>,
    x: Seq<u8>,
    y: Seq<u8>,
    i: int,
    k: int,
)
    requires
        0 <= i < components(p).len() && i < components(q).len(),
        forall|j: int| 0 <= j < i ==> components(p)[j] == components(q)[j],
        components(p)[i] == ComponentModel::Normal(x),
        components(q)[i] == ComponentModel::Normal(y),
        parts_before(x, y, k),
    ensures
        rank_before(path_rank(p), path_rank(q)),
        !rank_before(path_rank(q), path_rank(p)),
{
    let a = component_rank(ComponentModel::Normal(x));
    let b = component_rank(ComponentModel::Normal(y));
    assert forall|j: int| 0 <= j < k + 1 implies #[trigger] a[j] == b[j] by {
        if j > 0 {
            assert(a[j] == x[j - 1] as int && b[j] == y[j - 1] as int);
        }
    }
    if k < x.len() {
        assert(a[k + 1] == x[k] as int);
    }
    assert(b[k + 1] == y[k] as int);
    lemma_lex_decided(a, b, k + 1);
    lemma_lex_decided(b, a, k + 1);
    assert(path_rank(p)[i] == a && path_rank(q)[i] == b);
    lemma_rank_decided(path_rank(p), path_rank(q), i);
    lemma_rank_decided(path_rank(q), path_rank(p), i);
}

/// The kinds of components in their order: the root, a dot, two dots, a name.
pub open spec fn kind_of(c: ComponentModel) -> int {
    match c {
        ComponentModel::RootDir => 1,
        ComponentModel::CurDir => 2,
        ComponentModel::ParentDir => 3,
        ComponentModel::Normal(_) => 4,
    }
}

/// Where two paths part in components of different kinds, the kinds decide.
pub proof fn components_are_ordered_by_their_kinds(p: Seq<u8>, q: Seq<u8>, i: int)
    requires
        0 <= i < components(p).len() && i < components(q).len(),
        forall|j: int| 0 <= j < i ==> components(p)[j] == components(q)[j],
        kind_of(components(p)[i]) < kind_of(components(q)[i]),
    ensures
        rank_before(path_rank(p), path_rank(q)),
        !rank_before(path_rank(q), path_rank(p)),
{
    let a = component_rank(components(p)[i]);
    let b = component_rank(components(q)[i]);
    assert(a[0] < b[0]);
    assert(path_rank(p)[i] == a && path_rank(q)[i] == b);
    lemma_rank_decided(path_rank(p), path_rank(q), i);
    lemma_rank_decided(path_rank(q), path_rank(p), i);
}

/// Connections are ordered by their protocols: first those of the older family and then those of the
/// newer one, for the reliable protocol and then for the other.
pub proof fn protocols_are_ordered(a: KeyModel, b: KeyModel)
    requires
        a.protocol == SocketProtocol::Tcp && b.protocol != SocketProtocol::Tcp || a.protocol
            == SocketProtocol::Tcp6 && (b.protocol == SocketProtocol::Udp || b.protocol
            == SocketProtocol::Udp6) || a.protocol == SocketProtocol::Udp && b.protocol
            == SocketProtocol::Udp6,
    ensures
        rank_before(key_place(a), key_place(b)),
        !rank_before(key_place(b), key_place(a)),
{
    let x = seq![a.protocol.order()];
    let y = seq![b.protocol.order()];
    assert(x[0] < y[0]);
    assert(lex_before(x, y) && !lex_before(y, x));
    lemma_rank_decided(key_place(a), key_place(b), 0);
    lemma_rank_decided(key_place(b), key_place(a), 0);
}

/// The texts part at this place, and the first comes before the second.
pub open spec fn text_parts_before(x: Seq<char>, y: Seq<char>, k: int) -> bool {
    &&& 0 <= k <= x.len() && k < y.len()
    &&& forall|i: int| 0 <= i < k ==> x[i] == y[i]
    &&& k == x.len() || x[k] < y[k]
}

proof fn lemma_texts(x: Seq<char>, y: Seq<char>, k: int)
    requires
        text_parts_before(x, y, k),
    ensures
        lex_before(char_values(x), char_values(y)),
        !lex_before(char_values(y), char_values(x)),
        char_values(x) != char_values(y),
{
    lemma_lex_decided(char_values(x), char_values(y), k);
    lemma_lex_decided(char_values(y), char_values(x), k);
}

/// Connections with one protocol are ordered by the text of the near address, then by the near port,
/// then by the text of the far address, and then by the far port.
pub proof fn ends_are_ordered(a: KeyModel, b: KeyModel, k: int)
    requires
        a.protocol == b.protocol,
    ensures
        ({
            let near = address_text(a.local.address) == address_text(b.local.address);
            let far = address_text(a.remote.address) == address_text(b.remote.address);
            let first = text_parts_before(
                address_text(a.local.address),
                address_text(b.local.address),
                k,
            );
            let third = text_parts_before(
                address_text(a.remote.address),
                address_text(b.remote.address),
                k,
            );
            first || (near && a.local.port < b.local.port) || (near && a.local.port == b.local.port
                && third) || (near && a.local.port == b.local.port && far && a.remote.port
                < b.remote.port) ==> rank_before(key_place(a), key_place(b)) && !rank_before(
                key_place(b),
                key_place(a),
            )
        }),
{
    let x = key_place(a);
    let y = key_place(b);
    let near = address_text(a.local.address) == address_text(b.local.address);
    let far = address_text(a.remote.address) == address_text(b.remote.address);
    if text_parts_before(address_text(a.local.address), address_text(b.local.address), k) {
        lemma_texts(address_text(a.local.address), address_text(b.local.address), k);
        lemma_rank_decided(x, y, 1);
        lemma_rank_decided(y, x, 1);
    } else if near && a.local.port < b.local.port {
        assert(x[2][0] < y[2][0]);
        lemma_rank_decided(x, y, 2);
        lemma_rank_decided(y, x, 2);
    } else if near && a.local.port == b.local.port && text_parts_before(
        address_text(a.remote.address),
        address_text(b.remote.address),
        k,
    ) {
        lemma_texts(address_text(a.remote.address), address_text(b.remote.address), k);
        lemma_rank_decided(x, y, 3);
        lemma_rank_decided(y, x, 3);
    } else if near && a.local.port == b.local.port && far && a.remote.port < b.remote.port {
        assert(x[4][0] < y[4][0]);
        lemma_rank_decided(x, y, 4);
        lemma_rank_decided(y, x, 4);
    }
}

/// Whatever is placed in a table can be found there under its key, and nothing else has changed; the
/// table has grown by one exactly where the key was new, and everything still stands in order.
pub proof fn tables_keep_what_is_placed<T: Keyed>(s: Seq<T::V>, item: T::V, key: Seq<Seq<int>>)
    requires
        ascending::<T>(s),
    ensures
        ({
            let after = placed::<T>(s, item);
            &&& key == T::rank(item) ==> lookup::<T>(after, key) == Some(item)
            &&& key != T::rank(item) ==> lookup::<T>(after, key) == lookup::<T>(s, key)
            &&& after.len() == s.len() + if lookup::<T>(s, T::rank(item)) is Some {
                0nat
            } else {
                1nat
            }
            &&& forall|i: int, j: int|
                0 <= i < j < after.len() ==> rank_before(
                    #[trigger] T::rank(after[i]),
                    #[trigger] T::rank(after[j]),
                )
        }),
{
    crate::table::lemma_lookup_after_placing::<T>(s, item, key);
    crate::table::lemma_placed_is_ascending::<T>(s, item);
    crate::table::lemma_slot_bounds::<T>(s, T::rank(item));
}

/// An item is found in a table exactly where some item has its key.
pub proof fn tables_find_what_they_hold<T: Keyed>(s: Seq<T::V>, key: Seq<Seq<int>>)
    requires
        ascending::<T>(s),
    ensures
        lookup::<T>(s, key) matches Some(item) ==> T::rank(item) == key && s.contains(item),
        lookup::<T>(s, key) is None ==> forall|i: int|
            0 <= i < s.len() ==> #[trigger] T::rank(s[i]) != key,
{
    crate::table::lemma_slot_bounds::<T>(s, key);
    if lookup::<T>(s, key) is None {
        assert forall|i: int| 0 <= i < s.len() implies #[trigger] T::rank(s[i]) != key by {
            if T::rank(s[i]) == key {
                crate::table::lemma_lookup_finds_items::<T>(s, i);
            }
        }
    }
}

/// A verdict on two keys tells which comes first, and calls them the same exactly where they are equal.
pub proof fn verdicts_tell_the_order(
    a: Seq<int>,
    b: Seq<int>,
    x: Seq<Seq<int>>,
    y: Seq<Seq<int>>,
)
    ensures
        lex_comparison(a, b) == Comparison::Same <==> a == b,
        lex_comparison(a, b) == Comparison::Before <==> lex_before(a, b),
        lex_comparison(a, b) == Comparison::After <==> lex_before(b, a),
        rank_comparison(x, y) == Comparison::Same <==> x == y,
        rank_comparison(x, y) == Comparison::Before <==> rank_before(x, y),
        rank_comparison(x, y) == Comparison::After <==> rank_before(y, x),
{
    lex_before_is_total(a, b);
    rank_before_is_total(x, y);
}

/// The first place where two keys part decides: the shorter comes first, or else the one with the
/// smaller number there.
pub proof fn the_first_difference_decides(a: Seq<int>, b: Seq<int>, i: int)
    requires
        0 <= i <= a.len() && i <= b.len(),
        forall|k: int| 0 <= k < i ==> #[trigger] a[k] == b[k],
        i == a.len() || i == b.len() || a[i] != b[i],
    ensures
        lex_before(a, b) <==> i < b.len() && (i == a.len() || a[i] < b[i]),
{
    lemma_lex_decided(a, b, i);
}

} // verus!

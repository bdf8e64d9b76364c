//! The closed, oriented surface: how the triangles of a solid's boundary fit
//! together along their edges.
//!
//! A triangle with corners `a, b, c` is walked in that order, along the three
//! directed edges `a -> b`, `b -> c` and `c -> a`. A surface is closed and
//! consistently wound when every such edge has exactly one partner that runs
//! the other way, in another triangle.

use vstd::prelude::*;
use std::collections::HashSet;
use crate::key::{pack_triple, triple_key};

verus! {

broadcast use vstd::std_specs::hash::group_hash_axioms;

/// The corner that follows corner `k` in its triangle.
pub open spec fn next_corner(k: int) -> int {
    if k % 3 == 2 {
        k - 2
    } else {
        k + 1
    }
}

/// The directed edge that leaves corner `k`: from the vertex at that corner
/// to the vertex at the following corner of the same triangle.
pub open spec fn half_edge(indices: Seq<u32>, k: int) -> (u32, u32) {
    (indices[k], indices[next_corner(k)])
}

/// The same edge, walked the other way.
pub open spec fn reversed(edge: (u32, u32)) -> (u32, u32) {
    (edge.1, edge.0)
}

/// Whether the triangles form a closed, consistently wound surface:
/// no triangle uses a vertex twice, no directed edge occurs twice, and every
/// directed edge occurs reversed. The undirected edge between two vertices is
/// then shared by exactly two triangles, which walk it in opposite
/// directions. No triangles at all form the empty surface, which is closed.
pub open spec fn is_closed(indices: Seq<u32>) -> bool {
    &&& indices.len() % 3 == 0
    &&& forall|k: int|
        0 <= k < indices.len() ==> (#[trigger] half_edge(indices, k)).0 != half_edge(indices, k).1
    &&& forall|j: int, k: int|
        0 <= j < k < indices.len() ==> #[trigger] half_edge(indices, j) != #[trigger] half_edge(
            indices,
            k,
        )
    &&& forall|k: int|
        0 <= k < indices.len() ==> has_partner(indices, #[trigger] half_edge(indices, k))
}

/// Whether some triangle walks `edge` the other way.
pub open spec fn has_partner(indices: Seq<u32>, edge: (u32, u32)) -> bool {
    exists|j: int| 0 <= j < indices.len() && #[trigger] half_edge(indices, j) == reversed(edge)
}

/// A directed edge as one number: the start in the high half, the end in the
/// low half. Different edges give different numbers.
pub open spec fn edge_key(edge: (u32, u32)) -> u64 {
    (edge.0 as int * 0x1_0000_0000 + edge.1 as int) as u64
}

fn pack_edge(from: u32, to: u32) -> (key: u64)
    ensures
        key == edge_key((from, to)),
{
    from as u64 * 0x1_0000_0000 + to as u64
}

fn following(k: usize) -> (n: usize)
    requires
        k < usize::MAX,
    ensures
        n == next_corner(k as int),
{
    if k % 3 == 2 {
        k - 2
    } else {
        k + 1
    }
}

/// Decides whether the triangles given by their corners form a closed,
/// consistently wound surface.
pub fn is_closed_surface(indices: &[u32]) -> (r: bool)
    ensures
        r == is_closed(indices@),
{
    let n = indices.len();
    if n % 3 != 0 {
        return false;
    }
    let mut seen: HashSet<u64> = HashSet::new();
    let mut k: usize = 0;
    while k < n
        invariant
            n == indices.len(),
            n % 3 == 0,
            k <= n,
            forall|j: int|
                0 <= j < k ==> (#[trigger] half_edge(indices@, j)).0 != half_edge(indices@, j).1,
            forall|i: int, j: int|
                0 <= i < j < k ==> #[trigger] half_edge(indices@, i) != #[trigger] half_edge(
                    indices@,
                    j,
                ),
            forall|x: u64|
                seen@.contains(x) <==> exists|j: int|
                    0 <= j < k && edge_key(#[trigger] half_edge(indices@, j)) == x,
        decreases n - k,
    {
        let from = indices[k];
        let to = indices[following(k)];
        assert(half_edge(indices@, k as int) == (from, to));
        if from == to {
            return false;
        }
        let key = pack_edge(from, to);
        if seen.contains(&key) {
            let ghost j = choose|j: int|
                0 <= j < k && edge_key(#[trigger] half_edge(indices@, j)) == key;
            assert(half_edge(indices@, j) == half_edge(indices@, k as int));
            return false;
        }
        seen.insert(key);
        k += 1;
    }
    let mut k: usize = 0;
    while k < n
        invariant
            n == indices.len(),
            n % 3 == 0,
            k <= n,
            forall|x: u64|
                seen@.contains(x) <==> exists|j: int|
                    0 <= j < n && edge_key(#[trigger] half_edge(indices@, j)) == x,
            forall|j: int|
                0 <= j < k ==> has_partner(indices@, #[trigger] half_edge(indices@, j)),
        decreases n - k,
    {
        let from = indices[k];
        let to = indices[following(k)];
        assert(half_edge(indices@, k as int) == (from, to));
        let key = pack_edge(to, from);
        if !seen.contains(&key) {
            assert(!has_partner(indices@, half_edge(indices@, k as int)));
            return false;
        }
        let ghost j = choose|j: int|
            0 <= j < n && edge_key(#[trigger] half_edge(indices@, j)) == key;
        assert(half_edge(indices@, j) == reversed(half_edge(indices@, k as int)));
        k += 1;
    }
    true
}

/// The three corners of triangle `t`.
pub open spec fn face(indices: Seq<u32>, t: int) -> (u32, u32, u32) {
    (indices[3 * t], indices[3 * t + 1], indices[3 * t + 2])
}

/// The smaller of two numbers.
pub open spec fn least(a: u32, b: u32) -> u32 {
    if a <= b {
        a
    } else {
        b
    }
}

/// The larger of two numbers.
pub open spec fn most(a: u32, b: u32) -> u32 {
    if a <= b {
        b
    } else {
        a
    }
}

/// The three vertices of a face in increasing order, whatever the corner at
/// which the face starts and the direction in which it is walked.
pub open spec fn in_order(f: (u32, u32, u32)) -> (u32, u32, u32) {
    let low = least(f.0, least(f.1, f.2));
    let high = most(f.0, most(f.1, f.2));
    (low, (f.0 + f.1 + f.2 - low - high) as u32, high)
}

/// Whether no two triangles have the same three vertices. A closed surface
/// with this property has no face that lies flat on another.
pub open spec fn faces_differ(indices: Seq<u32>) -> bool {
    forall|s: int, t: int|
        0 <= s < t < indices.len() / 3 ==> in_order(#[trigger] face(indices, s)) != in_order(
            #[trigger] face(indices, t),
        )
}

fn sort_three(a: u32, b: u32, c: u32) -> (r: (u32, u32, u32))
    ensures
        r == in_order((a, b, c)),
{
    reveal(in_order);
    let (a, b) = if a <= b {
        (a, b)
    } else {
        (b, a)
    };
    let (b, c) = if b <= c {
        (b, c)
    } else {
        (c, b)
    };
    let (a, b) = if a <= b {
        (a, b)
    } else {
        (b, a)
    };
    (a, b, c)
}

/// The key under which a face is remembered: that of its vertices in
/// increasing order.
#[verifier::opaque]
spec fn face_key(indices: Seq<u32>, t: int) -> u128 {
    triple_key(in_order(face(indices, t)))
}

/// Two faces have the same key exactly when they have the same vertices.
proof fn lemma_face_key(indices: Seq<u32>, s: int, t: int)
    ensures
        face_key(indices, s) == face_key(indices, t) <==> in_order(face(indices, s)) == in_order(
            face(indices, t),
        ),
{
    reveal(face_key);
}

/// Decides whether no two of the triangles given by their corners have the
/// same three vertices. Corners after the last whole triangle are not
/// looked at.
pub fn faces_all_differ(indices: &[u32]) -> (r: bool)
    ensures
        r == faces_differ(indices@),
{
    let count = indices.len() / 3;
    let mut seen: HashSet<u128> = HashSet::new();
    let mut t: usize = 0;
    while t < count
        invariant
            count == indices.len() / 3,
            t <= count,
            forall|i: int, j: int|
                0 <= i < j < t ==> #[trigger] face_key(indices@, i) != #[trigger] face_key(
                    indices@,
                    j,
                ),
            forall|x: u128|
                seen@.contains(x) <==> exists|j: int|
                    0 <= j < t && #[trigger] face_key(indices@, j) == x,
        decreases count - t,
    {
        let sorted = sort_three(indices[3 * t], indices[3 * t + 1], indices[3 * t + 2]);
        let key = pack_triple(sorted.0, sorted.1, sorted.2);
        assert(key == face_key(indices@, t as int)) by {
            reveal(face_key);
        }
        if seen.contains(&key) {
            proof {
                let j = choose|j: int| 0 <= j < t && #[trigger] face_key(indices@, j) == key;
                lemma_face_key(indices@, j, t as int);
                assert(in_order(face(indices@, j)) == in_order(face(indices@, t as int)));
            }
            return false;
        }
        seen.insert(key);
        t += 1;
    }
    assert forall|i: int, j: int| 0 <= i < j < indices@.len() / 3 implies in_order(
        #[trigger] face(indices@, i),
    ) != in_order(#[trigger] face(indices@, j)) by {
        lemma_face_key(indices@, i, j);
    }
    true
}

} // verus!

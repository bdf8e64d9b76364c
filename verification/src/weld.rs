//! Welding: vertices that lie at the same point become one vertex.

use vstd::prelude::*;
use std::collections::HashMap;
use crate::ieee::{canonical32, f32_canonical, is_finite32};
use crate::key::{pack_triple, triple_key};
use crate::mesh::{Mesh, MeshView};

verus! {

broadcast use vstd::std_specs::hash::group_hash_axioms;

/// The values of `s` without repetition, each at the place where it occurs
/// first.
pub open spec fn distinct<A>(s: Seq<A>) -> Seq<A>
    decreases s.len(),
{
    if s.len() == 0 {
        Seq::empty()
    } else {
        let before = distinct(s.drop_last());
        if before.contains(s.last()) {
            before
        } else {
            before.push(s.last())
        }
    }
}

/// One coordinate of a position: axis 0, 1 or 2.
pub open spec fn coordinate(p: (u32, u32, u32), axis: int) -> u32 {
    if axis == 0 {
        p.0
    } else if axis == 1 {
        p.1
    } else {
        p.2
    }
}

/// The vertex buffer that lists the given positions in order.
pub open spec fn coordinates(ps: Seq<(u32, u32, u32)>) -> Seq<u32> {
    Seq::new(3 * ps.len(), |i: int| coordinate(ps[i / 3], i % 3))
}

/// The mesh with coinciding vertices merged. Its vertices are the distinct
/// positions of `m`, in the order in which `m` first reaches them and in
/// canonical encoding; each corner names the vertex that lies where the
/// corner's vertex lay in `m`. The triangles keep their order and winding.
pub open spec fn welded(m: MeshView) -> MeshView {
    let kept = distinct(m.positions());
    MeshView {
        vertices: coordinates(kept),
        indices: Seq::new(
            m.indices.len(),
            |k: int| kept.index_of(m.position(m.indices[k] as int)) as u32,
        ),
    }
}

/// Whether no two vertices of `m` lie at the same point and every coordinate
/// is in canonical encoding, so that welding has nothing to do.
pub open spec fn is_welded(m: MeshView) -> bool {
    &&& m.positions().no_duplicates()
    &&& forall|i: int|
        0 <= i < m.vertices.len() ==> canonical32(#[trigger] m.vertices[i]) == m.vertices[i]
}

/// `distinct` keeps exactly the values of `s`, each once, and is no longer
/// than `s`.
pub proof fn lemma_distinct<A>(s: Seq<A>)
    ensures
        distinct(s).no_duplicates(),
        distinct(s).len() <= s.len(),
        forall|x: A| #[trigger] distinct(s).contains(x) <==> s.contains(x),
    decreases s.len(),
{
    if s.len() > 0 {
        let before = distinct(s.drop_last());
        lemma_distinct(s.drop_last());
        assert forall|x: A| #[trigger] distinct(s).contains(x) <==> s.contains(x) by {
            if s.contains(x) {
                let i = choose|i: int| 0 <= i < s.len() && s[i] == x;
                if i < s.len() - 1 {
                    assert(s.drop_last()[i] == x);
                    assert(before.contains(x));
                    let j = choose|j: int| 0 <= j < before.len() && before[j] == x;
                    assert(distinct(s)[j] == x);
                } else if !before.contains(x) {
                    assert(distinct(s)[before.len() as int] == x);
                }
            }
            if distinct(s).contains(x) {
                let j = choose|j: int| 0 <= j < distinct(s).len() && distinct(s)[j] == x;
                if j < before.len() {
                    assert(before.contains(x));
                    let i = choose|i: int| 0 <= i < s.drop_last().len() && s.drop_last()[i] == x;
                    assert(s[i] == x);
                } else {
                    assert(s[s.len() - 1] == x);
                }
            }
        }
    }
}

/// The value at place `j` of `s` stands in `distinct(s)` at a place that is
/// no later than `j`.
pub proof fn lemma_distinct_place<A>(s: Seq<A>, j: int)
    requires
        0 <= j < s.len(),
    ensures
        distinct(s).contains(s[j]),
        0 <= distinct(s).index_of(s[j]) <= j,
    decreases s.len(),
{
    let before = distinct(s.drop_last());
    lemma_distinct(s);
    lemma_distinct(s.drop_last());
    assert(s.contains(s[j]));
    assert(distinct(s).contains(s[j]));
    let place = distinct(s).index_of(s[j]);
    assert(0 <= place < distinct(s).len() && distinct(s)[place] == s[j]);
    if j < s.len() - 1 {
        assert(s.drop_last()[j] == s[j]);
        lemma_distinct_place(s.drop_last(), j);
        assert(before.contains(s[j]));
        let first = before.index_of(s[j]);
        assert(0 <= first < before.len() && before[first] == s[j]);
        assert(distinct(s)[first] == s[j]);
    }
}

/// A sequence without repetition is its own `distinct`.
pub proof fn lemma_distinct_of_distinct<A>(s: Seq<A>)
    requires
        s.no_duplicates(),
    ensures
        distinct(s) == s,
    decreases s.len(),
{
    if s.len() > 0 {
        let before = s.drop_last();
        lemma_distinct_of_distinct(before);
        if before.contains(s.last()) {
            let i = choose|i: int| 0 <= i < before.len() && before[i] == s.last();
            assert(s[i] == s[s.len() - 1]);
        }
        assert(before.push(s.last()) =~= s);
    } else {
        assert(s =~= Seq::empty());
    }
}

/// One more value at the end of `s` adds one value to `distinct(s)`, or none.
proof fn lemma_distinct_step<A>(s: Seq<A>, v: int)
    requires
        0 <= v < s.len(),
    ensures
        distinct(s.take(v + 1)) == if distinct(s.take(v)).contains(s[v]) {
            distinct(s.take(v))
        } else {
            distinct(s.take(v)).push(s[v])
        },
{
    assert(s.take(v + 1).drop_last() =~= s.take(v));
    assert(s.take(v + 1).last() == s[v]);
}

/// One more position adds its three coordinates to the vertex buffer.
proof fn lemma_coordinates_push(ps: Seq<(u32, u32, u32)>, p: (u32, u32, u32))
    ensures
        coordinates(ps.push(p)) == coordinates(ps).push(p.0).push(p.1).push(p.2),
{
    let a = coordinates(ps.push(p));
    let b = coordinates(ps).push(p.0).push(p.1).push(p.2);
    assert forall|i: int| 0 <= i < a.len() implies a[i] == b[i] by {
        if i < 3 * ps.len() {
            assert(i / 3 < ps.len());
        } else {
            assert(i / 3 == ps.len());
        }
    }
    assert(a =~= b);
}

/// The vertex buffer that lists `ps` has the positions `ps`, if they are in
/// canonical encoding.
proof fn lemma_positions_of_coordinates(ps: Seq<(u32, u32, u32)>, corners: Seq<u32>)
    requires
        forall|i: int|
            0 <= i < 3 * ps.len() ==> canonical32(#[trigger] coordinates(ps)[i]) == coordinates(
                ps,
            )[i],
    ensures
        (MeshView { vertices: coordinates(ps), indices: corners }).positions() == ps,
{
    let made = MeshView { vertices: coordinates(ps), indices: corners };
    assert forall|i: int| 0 <= i < ps.len() implies made.position(i) == ps[i] by {
        assert((3 * i) / 3 == i && (3 * i) % 3 == 0);
        assert((3 * i + 1) / 3 == i && (3 * i + 1) % 3 == 1);
        assert((3 * i + 2) / 3 == i && (3 * i + 2) % 3 == 2);
        assert(coordinates(ps)[3 * i] == ps[i].0);
        assert(coordinates(ps)[3 * i + 1] == ps[i].1);
        assert(coordinates(ps)[3 * i + 2] == ps[i].2);
    }
    assert(made.positions() =~= ps);
}

/// Welding changes nothing in a mesh whose vertices all lie at different
/// points and are in canonical encoding.
pub proof fn lemma_welded_is_fixed(m: MeshView)
    requires
        m.well_formed(),
        is_welded(m),
    ensures
        welded(m) == m,
{
    let ps = m.positions();
    lemma_distinct_of_distinct(ps);
    assert forall|i: int| 0 <= i < m.vertices.len() implies coordinates(ps)[i] == m.vertices[i] by {
        let v = i / 3;
        assert(ps[v] == m.position(v));
        assert(i == 3 * v + i % 3);
    }
    assert(coordinates(ps) =~= m.vertices);
    assert forall|k: int| 0 <= k < m.indices.len() implies welded(m).indices[k] == m.indices[k] by {
        let name = m.indices[k] as int;
        assert(ps[name] == m.position(name));
    }
    assert(welded(m).indices =~= m.indices);
}

/// Welding a mesh gives a mesh with the structure of a mesh buffer, in which
/// welding finds nothing more to do, and whose triangles have their corners
/// where they were.
pub proof fn lemma_welded(m: MeshView)
    requires
        m.well_formed(),
    ensures
        welded(m).well_formed(),
        is_welded(welded(m)),
        welded(welded(m)) == welded(m),
        welded(m).triangle_count() == m.triangle_count(),
        forall|k: int|
            0 <= k < m.indices.len() ==> welded(m).position(#[trigger] welded(m).indices[k] as int)
                == m.position(m.indices[k] as int),
{
    let ps = m.positions();
    let kept = distinct(ps);
    let w = welded(m);
    lemma_distinct(ps);
    assert forall|i: int| 0 <= i < 3 * kept.len() implies canonical32(
        #[trigger] coordinates(kept)[i],
    ) == coordinates(kept)[i] && is_finite32(coordinates(kept)[i]) by {
        let p = kept[i / 3];
        assert(kept.contains(p));
        let v = choose|v: int| 0 <= v < ps.len() && ps[v] == p;
        assert(p == m.position(v));
        assert(is_finite32(m.vertices[3 * v]));
        assert(is_finite32(m.vertices[3 * v + 1]));
        assert(is_finite32(m.vertices[3 * v + 2]));
    }
    lemma_positions_of_coordinates(kept, w.indices);
    assert forall|k: int| 0 <= k < w.indices.len() implies (#[trigger] w.indices[k] as int)
        < w.vertex_count() && w.position(w.indices[k] as int) == m.position(
        m.indices[k] as int,
    ) by {
        let name = m.indices[k] as int;
        assert(ps[name] == m.position(name));
        lemma_distinct_place(ps, name);
        assert(w.indices[k] == kept.index_of(ps[name]));
        assert(w.positions()[w.indices[k] as int] == w.position(w.indices[k] as int));
    }
    lemma_welded_is_fixed(w);
}

/// Whether `slot` finds each of the positions `kept` by its key, and nothing
/// else.
spec fn slots_match(slot: Map<u128, usize>, kept: Seq<(u32, u32, u32)>) -> bool {
    &&& forall|key: u128| #[trigger]
        slot.contains_key(key) ==> 0 <= slot[key] < kept.len() && triple_key(
            kept[slot[key] as int],
        ) == key
    &&& forall|i: int|
        0 <= i < kept.len() ==> slot.contains_key(triple_key(#[trigger] kept[i]))
            && slot[triple_key(kept[i])] == i
}

proof fn lemma_slot_found(slot: Map<u128, usize>, kept: Seq<(u32, u32, u32)>, p: (u32, u32, u32))
    requires
        slots_match(slot, kept),
    ensures
        slot.contains_key(triple_key(p)) <==> kept.contains(p),
        slot.contains_key(triple_key(p)) ==> 0 <= slot[triple_key(p)] < kept.len()
            && kept[slot[triple_key(p)] as int] == p,
{
    if kept.contains(p) {
        let i = choose|i: int| 0 <= i < kept.len() && kept[i] == p;
        assert(slot.contains_key(triple_key(kept[i])));
    }
}

proof fn lemma_slot_added(slot: Map<u128, usize>, kept: Seq<(u32, u32, u32)>, p: (u32, u32, u32))
    requires
        slots_match(slot, kept),
        !kept.contains(p),
        kept.len() <= usize::MAX,
    ensures
        slots_match(slot.insert(triple_key(p), kept.len() as usize), kept.push(p)),
{
    let key = triple_key(p);
    let after = kept.push(p);
    let grown = slot.insert(key, kept.len() as usize);
    lemma_slot_found(slot, kept, p);
    assert forall|k: u128| #[trigger] grown.contains_key(k) implies 0 <= grown[k] < after.len()
        && triple_key(after[grown[k] as int]) == k by {
        if k != key {
            assert(slot.contains_key(k));
        }
    }
    assert forall|i: int| 0 <= i < after.len() implies grown.contains_key(
        triple_key(#[trigger] after[i]),
    ) && grown[triple_key(after[i])] == i by {
        if i < kept.len() {
            assert(after[i] == kept[i]);
            assert(kept.contains(kept[i]));
        }
    }
}

/// Whether `renamed` gives, for each of the first `v` positions of `ps`, a
/// place in `kept` that holds it and that is no later than its own.
spec fn names_match(
    renamed: Seq<usize>,
    kept: Seq<(u32, u32, u32)>,
    ps: Seq<(u32, u32, u32)>,
    v: int,
) -> bool {
    &&& renamed.len() == v
    &&& v <= ps.len()
    &&& forall|j: int|
        0 <= j < v ==> (#[trigger] renamed[j]) <= j && renamed[j] < kept.len()
            && kept[renamed[j] as int] == ps[j]
}

/// Merges the vertices of `mesh` that lie at the same point, where positive
/// and negative zero are the same coordinate.
pub fn weld(mesh: &Mesh) -> (r: Mesh)
    ensures
        r@ == welded(mesh@),
        r@.well_formed(),
        is_welded(r@),
{
    let (vertices, indices) = mesh.buffers();
    let ghost m = mesh@;
    let ghost ps = m.positions();
    let count = vertices.len() / 3;
    let mut slot: HashMap<u128, usize> = HashMap::new();
    let mut kept: Vec<u32> = Vec::new();
    let mut renamed: Vec<usize> = Vec::new();
    let ghost mut found: Seq<(u32, u32, u32)> = Seq::empty();
    let mut v: usize = 0;
    proof {
        assert(ps.take(0) =~= Seq::empty());
        assert(kept@ =~= coordinates(found));
    }
    while v < count
        invariant
            m.well_formed(),
            m.vertices == vertices@,
            ps == m.positions(),
            count == m.vertex_count(),
            3 * count == vertices.len(),
            v <= count,
            found == distinct(ps.take(v as int)),
            found.len() <= v,
            kept@ == coordinates(found),
            names_match(renamed@, found, ps, v as int),
            slots_match(slot@, found),
        decreases count - v,
    {
        let ghost p = ps[v as int];
        let x = f32_canonical(vertices[3 * v]);
        let y = f32_canonical(vertices[3 * v + 1]);
        let z = f32_canonical(vertices[3 * v + 2]);
        assert(p == (x, y, z));
        let key = pack_triple(x, y, z);
        proof {
            lemma_distinct_step(ps, v as int);
            lemma_slot_found(slot@, found, p);
        }
        match slot.get(&key) {
            Some(place) => {
                renamed.push(*place);
            },
            None => {
                let ghost slot_before = slot@;
                let fresh = kept.len() / 3;
                kept.push(x);
                kept.push(y);
                kept.push(z);
                slot.insert(key, fresh);
                renamed.push(fresh);
                proof {
                    lemma_coordinates_push(found, p);
                    lemma_slot_added(slot_before, found, p);
                    found = found.push(p);
                }
            },
        }
        v += 1;
    }
    assert(ps.take(count as int) =~= ps);
    let mut corners: Vec<u32> = Vec::new();
    let mut k: usize = 0;
    while k < indices.len()
        invariant
            m.well_formed(),
            m.indices == indices@,
            ps == m.positions(),
            found == distinct(ps),
            names_match(renamed@, found, ps, m.vertex_count()),
            k <= indices.len(),
            corners.len() == k,
            forall|j: int| 0 <= j < k ==> (#[trigger] corners[j]) == renamed[indices[j] as int],
        decreases indices.len() - k,
    {
        let old_name = indices[k] as usize;
        assert(m.indices[k as int] as int == old_name);
        let new_name = renamed[old_name];
        corners.push(new_name as u32);
        k += 1;
    }
    proof {
        lemma_distinct(ps);
        lemma_welded(m);
        let target = welded(m);
        assert forall|j: int| 0 <= j < corners.len() implies corners[j] == target.indices[j] by {
            let name = m.indices[j] as int;
            let place = renamed[name] as int;
            assert(found[place] == ps[name]);
            assert(ps[name] == m.position(name));
            assert(found.contains(ps[name]));
        }
        assert(corners@ =~= target.indices);
    }
    Mesh::from_buffers(kept, corners)
}

} // verus!

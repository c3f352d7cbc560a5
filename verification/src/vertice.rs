use vstd::prelude::*;
use crate::triangle::TriangleSTL;
use crate::vector::{quant_eq, quant_lt, vec3f_le_bytes, Vec3f};

verus! {

/// One canonical vertex of the deduplicated set.
#[derive(Clone, Copy, PartialEq, Eq, Structural, Debug)]
pub struct LagrangianVertice {
    pub pos: Vec3f,
}

impl LagrangianVertice {
    pub fn new(pos: Vec3f) -> (r: LagrangianVertice)
        ensures
            r.pos == pos,
    {
        LagrangianVertice { pos }
    }

    /// The little-endian byte encoding of the position.
    pub fn get_le_bytes(&self) -> (r: Vec<u8>)
        ensures
            r@ == vec3f_le_bytes(self.pos),
    {
        self.pos.to_le_bytes_as_f32()
    }
}

/// The j-th corner of a triangle.
pub open spec fn point_of(t: TriangleSTL, j: int) -> Vec3f {
    if j == 0 {
        t.point0
    } else if j == 1 {
        t.point1
    } else {
        t.point2
    }
}

/// Every corner of every triangle, in traversal order.
pub open spec fn soup_points(ts: Seq<TriangleSTL>) -> Seq<Vec3f> {
    Seq::new(3 * ts.len(), |i: int| point_of(ts[i / 3], i % 3))
}

/// Whether some position in the sequence is quantized-equal to `p`.
pub open spec fn contains_quant(s: Seq<Vec3f>, p: Vec3f) -> bool {
    exists|i: int| 0 <= i < s.len() && quant_eq(s[i], p)
}

/// The sequence with every position dropped that repeats, up to
/// quantization, an earlier one: each equality class keeps its first
/// occurrence.
pub open spec fn dedup_first(s: Seq<Vec3f>) -> Seq<Vec3f>
    decreases s.len(),
{
    if s.len() == 0 {
        Seq::empty()
    } else {
        let prev = dedup_first(s.drop_last());
        if contains_quant(prev, s.last()) {
            prev
        } else {
            prev.push(s.last())
        }
    }
}

/// No two positions of the sequence are quantized-equal.
pub open spec fn pairwise_distinct(s: Seq<Vec3f>) -> bool {
    forall|i: int, j: int| 0 <= i < j < s.len() ==> !quant_eq(s[i], s[j])
}

/// The sequence ascends strictly in the quantized lexicographic order.
pub open spec fn strictly_sorted(s: Seq<Vec3f>) -> bool {
    forall|i: int, j: int| 0 <= i < j < s.len() ==> quant_lt(s[i], s[j])
}

/// A deduplicated sequence repeats nothing and loses no position class.
pub proof fn lemma_dedup_first_ensures(s: Seq<Vec3f>)
    ensures
        pairwise_distinct(dedup_first(s)),
        forall|p: Vec3f| contains_quant(dedup_first(s), p) <==> contains_quant(s, p),
        dedup_first(s).len() <= s.len(),
    decreases s.len(),
{
    if s.len() > 0 {
        lemma_dedup_first_ensures(s.drop_last());
        let prev = dedup_first(s.drop_last());
        assert forall|p: Vec3f| contains_quant(dedup_first(s), p) implies contains_quant(s, p) by {
            let i = choose|i: int|
                0 <= i < dedup_first(s).len() && quant_eq(dedup_first(s)[i], p);
            if i < prev.len() {
                assert(contains_quant(s.drop_last(), p));
                let j = choose|j: int|
                    0 <= j < s.drop_last().len() && quant_eq(s.drop_last()[j], p);
                assert(quant_eq(s[j], p));
            } else {
                assert(quant_eq(s[s.len() - 1], p));
            }
        }
        assert forall|p: Vec3f| contains_quant(s, p) implies contains_quant(dedup_first(s), p) by {
            let i = choose|i: int| 0 <= i < s.len() && quant_eq(s[i], p);
            if i < s.len() - 1 {
                assert(0 <= i < s.drop_last().len() && quant_eq(s.drop_last()[i], p));
                assert(contains_quant(s.drop_last(), p));
                assert(contains_quant(prev, p));
                let j = choose|j: int| 0 <= j < prev.len() && quant_eq(prev[j], p);
                if !contains_quant(prev, s.last()) {
                    assert(quant_eq(dedup_first(s)[j], p));
                }
            } else {
                if contains_quant(prev, s.last()) {
                    let j = choose|j: int| 0 <= j < prev.len() && quant_eq(prev[j], s.last());
                    assert(quant_eq(dedup_first(s)[j], p));
                } else {
                    assert(quant_eq(dedup_first(s)[prev.len() as int], p));
                }
            }
        }
    }
}

/// A strictly sorted sequence deduplicates to itself.
pub proof fn lemma_sorted_dedup_identity(s: Seq<Vec3f>)
    requires
        strictly_sorted(s),
    ensures
        dedup_first(s) == s,
    decreases s.len(),
{
    if s.len() > 0 {
        assert(strictly_sorted(s.drop_last()));
        lemma_sorted_dedup_identity(s.drop_last());
        if contains_quant(s.drop_last(), s.last()) {
            let i = choose|i: int|
                0 <= i < s.drop_last().len() && quant_eq(s.drop_last()[i], s.last());
            assert(quant_lt(s[i], s.last()));
            assert(false);
        }
        assert(dedup_first(s) =~= s);
    }
}

/// Two strictly sorted sequences with the same positions are the same
/// sequence.
pub proof fn lemma_sorted_multiset_unique(x: Seq<Vec3f>, y: Seq<Vec3f>)
    requires
        strictly_sorted(x),
        strictly_sorted(y),
        x.to_multiset() == y.to_multiset(),
    ensures
        x == y,
    decreases x.len(),
{
    broadcast use vstd::seq_lib::group_to_multiset_ensures;

    if x.len() == 0 {
        assert(y.to_multiset().len() == 0);
        assert(x =~= y);
    } else {
        assert(x.to_multiset().contains(x[0]));
        assert(y.to_multiset().contains(x[0]));
        assert(y.contains(x[0]));
        let i = choose|i: int| 0 <= i < y.len() && y[i] == x[0];
        assert(y.to_multiset().contains(y[0]));
        assert(x.to_multiset().contains(y[0]));
        assert(x.contains(y[0]));
        let j = choose|j: int| 0 <= j < x.len() && x[j] == y[0];
        if i > 0 {
            assert(quant_lt(y[0], y[i]));
            if j > 0 {
                assert(quant_lt(x[0], x[j]));
                assert(false);
            }
            assert(false);
        }
        assert(x[0] == y[0]);
        assert(x.remove(0).to_multiset() == x.to_multiset().remove(x[0]));
        assert(y.remove(0).to_multiset() == y.to_multiset().remove(y[0]));
        assert(x.remove(0) =~= x.drop_first());
        assert(y.remove(0) =~= y.drop_first());
        assert(strictly_sorted(x.drop_first()));
        assert(strictly_sorted(y.drop_first()));
        lemma_sorted_multiset_unique(x.drop_first(), y.drop_first());
        assert(x.len() == x.to_multiset().len());
        assert(y.len() == y.to_multiset().len());
        assert forall|k: int| 0 <= k < x.len() implies x[k] == y[k] by {
            if k > 0 {
                assert(x[k] == x.drop_first()[k - 1]);
                assert(y[k] == y.drop_first()[k - 1]);
            }
        }
        assert(x =~= y);
    }
}

/// Dedup idempotence: handing a canonical vertex set through the
/// deduplicator once more gives back the very same set, with the same
/// order, count and index of every vertex. Here `s1` is a canonical set
/// and `s2` any output of a second run on it.
pub proof fn lemma_dedup_idempotence(s1: Seq<Vec3f>, s2: Seq<Vec3f>)
    requires
        strictly_sorted(s1),
        strictly_sorted(s2),
        s2.to_multiset() == dedup_first(s1).to_multiset(),
    ensures
        s2 == s1,
{
    lemma_sorted_dedup_identity(s1);
    lemma_sorted_multiset_unique(s2, s1);
}

/// Tolerance equality at the index level: in a canonical vertex set, two
/// looked-up positions share their index exactly when they are
/// quantized-equal; positions further apart than the quantization step get
/// distinct indices.
pub proof fn lemma_tolerance_equality(s: Seq<Vec3f>, p: Vec3f, q: Vec3f, i: int, j: int)
    requires
        strictly_sorted(s),
        0 <= i < s.len(),
        0 <= j < s.len(),
        quant_eq(s[i], p),
        quant_eq(s[j], q),
    ensures
        quant_eq(p, q) <==> i == j,
{
    if i < j {
        assert(quant_lt(s[i], s[j]));
    }
    if j < i {
        assert(quant_lt(s[j], s[i]));
    }
}

/// The canonical vertex set of one conversion run: vertex `i` of the mesh
/// is `verts[i]`, and the vertices ascend strictly in the quantized order.
pub struct VertexTable {
    pub verts: Vec<LagrangianVertice>,
}

/// The positions the table holds, in index order.
pub open spec fn table_points(t: VertexTable) -> Seq<Vec3f> {
    t.verts@.map_values(|v: LagrangianVertice| v.pos)
}

impl VertexTable {
    /// The table's invariant: strictly ascending, hence duplicate-free.
    pub open spec fn wf(&self) -> bool {
        strictly_sorted(table_points(*self))
    }

    pub fn len(&self) -> (r: usize)
        ensures
            r == self.verts@.len(),
    {
        self.verts.len()
    }

    /// Looks a position up by quantized equality.
    pub fn index_of(&self, p: Vec3f) -> (r: Option<usize>)
        ensures
            r is Some <==> contains_quant(table_points(*self), p),
            r is Some ==> 0 <= r->0 < self.verts@.len() && quant_eq(
                table_points(*self)[r->0 as int],
                p,
            ),
    {
        let n = self.verts.len();
        let mut i: usize = 0;
        while i < n
            invariant
                i <= n == self.verts@.len(),
                forall|k: int| 0 <= k < i ==> !quant_eq(table_points(*self)[k], p),
            decreases n - i,
        {
            if self.verts[i].pos.almost_equal(&p) {
                assert(quant_eq(table_points(*self)[i as int], p));
                return Some(i);
            }
            i = i + 1;
        }
        None
    }
}

fn contains_point(s: &Vec<Vec3f>, p: Vec3f) -> (r: bool)
    ensures
        r == contains_quant(s@, p),
{
    let n = s.len();
    let mut i: usize = 0;
    while i < n
        invariant
            i <= n == s@.len(),
            forall|k: int| 0 <= k < i ==> !quant_eq(s@[k], p),
        decreases n - i,
    {
        if s[i].almost_equal(&p) {
            assert(quant_eq(s@[i as int], p));
            return true;
        }
        i = i + 1;
    }
    false
}

fn collect_points(triangles: &Vec<TriangleSTL>) -> (r: Vec<Vec3f>)
    ensures
        r@ == soup_points(triangles@),
{
    let mut out: Vec<Vec3f> = Vec::new();
    let n = triangles.len();
    let mut i: usize = 0;
    while i < n
        invariant
            i <= n == triangles@.len(),
            out@.len() == 3 * i,
            forall|k: int| 0 <= k < 3 * i ==> out@[k] == soup_points(triangles@)[k],
        decreases n - i,
    {
        let t = triangles[i];
        out.push(t.point0);
        out.push(t.point1);
        out.push(t.point2);
        proof {
            assert forall|k: int| 0 <= k < 3 * (i + 1) implies out@[k] == soup_points(
                triangles@,
            )[k] by {
                if k >= 3 * i {
                    assert(k / 3 == i && (k == 3 * i + k % 3));
                }
            }
        }
        i = i + 1;
    }
    assert(out@ =~= soup_points(triangles@));
    out
}

fn dedup_points(pts: &Vec<Vec3f>) -> (r: Vec<Vec3f>)
    ensures
        r@ == dedup_first(pts@),
{
    let mut uniq: Vec<Vec3f> = Vec::new();
    let n = pts.len();
    let mut m: usize = 0;
    while m < n
        invariant
            m <= n == pts@.len(),
            uniq@ == dedup_first(pts@.take(m as int)),
        decreases n - m,
    {
        let p = pts[m];
        proof {
            assert(pts@.take(m + 1).drop_last() =~= pts@.take(m as int));
            assert(pts@.take(m + 1).last() == pts@[m as int]);
        }
        if !contains_point(&uniq, p) {
            uniq.push(p);
        }
        m = m + 1;
    }
    assert(pts@.take(n as int) =~= pts@);
    uniq
}

fn sort_points(uniq: Vec<Vec3f>) -> (r: Vec<Vec3f>)
    requires
        pairwise_distinct(uniq@),
    ensures
        strictly_sorted(r@),
        r@.to_multiset() == uniq@.to_multiset(),
{
    broadcast use vstd::seq_lib::group_to_multiset_ensures;
    broadcast use vstd::seq_lib::to_multiset_insert;

    let mut out: Vec<Vec3f> = Vec::new();
    let n = uniq.len();
    let mut m: usize = 0;
    while m < n
        invariant
            m <= n == uniq@.len(),
            pairwise_distinct(uniq@),
            strictly_sorted(out@),
            out@.to_multiset() == uniq@.take(m as int).to_multiset(),
            out@.len() == m,
        decreases n - m,
    {
        let p = uniq[m];
        proof {
            broadcast use vstd::seq_lib::group_to_multiset_ensures;

            assert forall|k: int| 0 <= k < out@.len() implies !quant_eq(out@[k], p) by {
                assert(out@.to_multiset().contains(out@[k]));
                assert(uniq@.take(m as int).to_multiset().contains(out@[k]));
                assert(uniq@.take(m as int).contains(out@[k]));
                let w = choose|w: int| 0 <= w < m && uniq@[w] == out@[k];
                assert(!quant_eq(uniq@[w], uniq@[m as int]));
            }
        }
        let len = out.len();
        let mut j: usize = 0;
        while j < len
            invariant_except_break
                j <= len == out@.len(),
                forall|k: int| 0 <= k < j ==> quant_lt(out@[k], p),
            ensures
                j <= len == out@.len(),
                forall|k: int| 0 <= k < j ==> quant_lt(out@[k], p),
                j < len ==> !quant_lt(out@[j as int], p),
            decreases len - j,
        {
            if !out[j].quant_less(&p) {
                break ;
            }
            j = j + 1;
        }
        proof {
            if j < out@.len() {
                assert(!quant_lt(out@[j as int], p));
            }
            assert forall|k: int| j <= k < out@.len() implies quant_lt(p, out@[k]) by {
                assert(!quant_eq(out@[k], p));
                if k > j {
                    assert(quant_lt(out@[j as int], out@[k]));
                }
            }
            assert(uniq@.take(m + 1).drop_last() =~= uniq@.take(m as int));
        }
        out.insert(j, p);
        proof {
            broadcast use vstd::seq_lib::group_to_multiset_ensures;
            broadcast use vstd::seq_lib::to_multiset_insert;

            assert(uniq@.take(m + 1) =~= uniq@.take(m as int).push(p));
        }
        m = m + 1;
    }
    assert(uniq@.take(n as int) =~= uniq@);
    out
}

/// Builds the canonical vertex set of a triangle soup: the distinct
/// quantized positions, each kept as its first occurrence, sorted into the
/// quantized lexicographic order and indexed densely in that order.
pub fn generate_lagrangian_vertices(triangles: &Vec<TriangleSTL>) -> (t: VertexTable)
    ensures
        t.wf(),
        table_points(t).to_multiset() == dedup_first(soup_points(triangles@)).to_multiset(),
        forall|p: Vec3f|
            contains_quant(table_points(t), p) <==> contains_quant(soup_points(triangles@), p),
{
    broadcast use vstd::seq_lib::group_to_multiset_ensures;

    let pts = collect_points(triangles);
    let uniq = dedup_points(&pts);
    proof {
        lemma_dedup_first_ensures(pts@);
    }
    let sorted = sort_points(uniq);
    let mut verts: Vec<LagrangianVertice> = Vec::new();
    let n = sorted.len();
    let mut i: usize = 0;
    while i < n
        invariant
            i <= n == sorted@.len(),
            verts@.len() == i,
            forall|k: int| 0 <= k < i ==> verts@[k].pos == sorted@[k],
        decreases n - i,
    {
        verts.push(LagrangianVertice { pos: sorted[i] });
        i = i + 1;
    }
    let t = VertexTable { verts };
    proof {
        assert(table_points(t) =~= sorted@);
        assert forall|p: Vec3f|
            contains_quant(table_points(t), p) <==> contains_quant(
                soup_points(triangles@),
                p,
            ) by {
            assert(table_points(t) == sorted@);
            if contains_quant(sorted@, p) {
                let i0 = choose|i0: int| 0 <= i0 < sorted@.len() && quant_eq(sorted@[i0], p);
                assert(sorted@.to_multiset().contains(sorted@[i0]));
                assert(dedup_first(pts@).contains(sorted@[i0]));
                let j0 = choose|j0: int|
                    0 <= j0 < dedup_first(pts@).len() && dedup_first(pts@)[j0] == sorted@[i0];
                assert(contains_quant(dedup_first(pts@), p));
            }
            if contains_quant(pts@, p) {
                let i1 = choose|i1: int|
                    0 <= i1 < dedup_first(pts@).len() && quant_eq(dedup_first(pts@)[i1], p);
                assert(dedup_first(pts@).to_multiset().contains(dedup_first(pts@)[i1]));
                assert(sorted@.contains(dedup_first(pts@)[i1]));
                let j1 = choose|j1: int|
                    0 <= j1 < sorted@.len() && sorted@[j1] == dedup_first(pts@)[i1];
                assert(contains_quant(sorted@, p));
            }
        }
    }
    t
}

} // verus!

use vstd::prelude::*;
use vstd::string::StrSliceExecFns;
use crate::errors::LnasError;
use crate::reader::{read_stl, stl_parses, stl_triangles};
use crate::triangle::TriangleSTL;

verus! {

/// Strict lexicographic order on character sequences, by code point. For
/// Rust strings this agrees with the byte-wise `String` ordering, since
/// UTF-8 preserves code point order.
pub open spec fn str_lt(a: Seq<char>, b: Seq<char>) -> bool
    decreases a.len(),
{
    if b.len() == 0 {
        false
    } else if a.len() == 0 {
        true
    } else if a[0] == b[0] {
        str_lt(a.drop_first(), b.drop_first())
    } else {
        (a[0] as int) < (b[0] as int)
    }
}

pub proof fn lemma_str_lt_irreflexive(a: Seq<char>)
    ensures
        !str_lt(a, a),
    decreases a.len(),
{
    if a.len() > 0 {
        lemma_str_lt_irreflexive(a.drop_first());
    }
}

/// Two sequences with neither below the other are equal.
pub proof fn lemma_str_lt_connected(a: Seq<char>, b: Seq<char>)
    requires
        !str_lt(a, b),
        !str_lt(b, a),
    ensures
        a == b,
    decreases a.len(),
{
    if a.len() == 0 || b.len() == 0 {
        assert(a =~= b);
    } else {
        if a[0] == b[0] {
            lemma_str_lt_connected(a.drop_first(), b.drop_first());
            assert(a.drop_first().len() == b.drop_first().len());
            assert(a.len() == b.len());
            assert forall|k: int| 0 <= k < a.len() implies a[k] == b[k] by {
                if k > 0 {
                    assert(a[k] == a.drop_first()[k - 1]);
                    assert(b[k] == b.drop_first()[k - 1]);
                }
            }
            assert(a =~= b);
        }
    }
}

pub proof fn lemma_str_lt_transitive(a: Seq<char>, b: Seq<char>, c: Seq<char>)
    requires
        str_lt(a, b),
        str_lt(b, c),
    ensures
        str_lt(a, c),
    decreases a.len(),
{
    if a.len() > 0 && b.len() > 0 && c.len() > 0 {
        if a[0] == b[0] && b[0] == c[0] {
            lemma_str_lt_transitive(a.drop_first(), b.drop_first(), c.drop_first());
        }
    }
}

/// Dropping an equal prefix does not change the order.
pub proof fn lemma_str_lt_skip(a: Seq<char>, b: Seq<char>, i: int)
    requires
        0 <= i <= a.len(),
        i <= b.len(),
        forall|k: int| 0 <= k < i ==> a[k] == b[k],
    ensures
        str_lt(a, b) == str_lt(a.skip(i), b.skip(i)),
    decreases i,
{
    if i == 0 {
        assert(a.skip(0) =~= a);
        assert(b.skip(0) =~= b);
    } else {
        assert(a.len() > 0 && b.len() > 0 && a[0] == b[0]);
        assert(a.drop_first() =~= a.skip(1));
        assert(b.drop_first() =~= b.skip(1));
        lemma_str_lt_skip(a.skip(1), b.skip(1), i - 1);
        assert(a.skip(1).skip(i - 1) =~= a.skip(i));
        assert(b.skip(1).skip(i - 1) =~= b.skip(i));
    }
}

/// Compares two surface names in the strict lexicographic order.
pub fn str_less(a: &String, b: &String) -> (r: bool)
    ensures
        r == str_lt(a@, b@),
{
    let la = a.as_str().unicode_len();
    let lb = b.as_str().unicode_len();
    let mut i: usize = 0;
    while i < la && i < lb
        invariant_except_break
            i <= la,
            i <= lb,
            la == a@.len(),
            lb == b@.len(),
            forall|k: int| 0 <= k < i ==> a@[k] == b@[k],
        ensures
            i <= la == a@.len(),
            i <= lb == b@.len(),
            forall|k: int| 0 <= k < i ==> a@[k] == b@[k],
            (i < la && i < lb) ==> a@[i as int] != b@[i as int],
        decreases la - i,
    {
        let ca = a.as_str().get_char(i);
        let cb = b.as_str().get_char(i);
        if ca != cb {
            break ;
        }
        i = i + 1;
    }
    proof {
        lemma_str_lt_skip(a@, b@, i as int);
    }
    if i < la && i < lb {
        let ca = a.as_str().get_char(i);
        let cb = b.as_str().get_char(i);
        proof {
            assert(a@.skip(i as int)[0] == a@[i as int]);
            assert(b@.skip(i as int)[0] == b@[i as int]);
        }
        (ca as u32) < (cb as u32)
    } else {
        proof {
            if i == la && i < lb {
                assert(a@.skip(i as int).len() == 0);
                assert(b@.skip(i as int).len() > 0);
            }
            if i == lb {
                assert(b@.skip(i as int).len() == 0);
            }
        }
        la < lb
    }
}

/// The name and content views of the input pairs.
pub open spec fn view_pairs(files: Seq<(String, Vec<u8>)>) -> Seq<(Seq<char>, Seq<u8>)> {
    files.map_values(|p: (String, Vec<u8>)| (p.0@, p.1@))
}

/// No two inputs share a surface name.
pub open spec fn names_distinct(files: Seq<(String, Vec<u8>)>) -> bool {
    forall|i: int, j: int|
        0 <= i < j < files.len() ==> (#[trigger] files[i].0@) != (#[trigger] files[j].0@)
}

/// Every input surface name appears among the output surfaces.
pub open spec fn names_covered(files: Seq<(String, Vec<u8>)>, surfs: Seq<(String, Vec<u32>)>) -> bool {
    forall|i: int|
        0 <= i < files.len() ==> exists|j: int|
            0 <= j < surfs.len() && (#[trigger] surfs[j]).0@ == (#[trigger] files[i]).0@
}

/// The surface names ascend strictly.
pub open spec fn names_sorted(files: Seq<(String, Vec<u8>)>) -> bool {
    forall|i: int, j: int|
        0 <= i < j < files.len() ==> str_lt(#[trigger] files[i].0@, #[trigger] files[j].0@)
}

/// Sorts the inputs by surface name, rejecting a repeated name before any
/// decoding begins.
fn sort_files(files: &Vec<(String, Vec<u8>)>) -> (r: Result<Vec<(String, Vec<u8>)>, LnasError>)
    ensures
        r is Ok ==> {
            &&& names_sorted(r->Ok_0@)
            &&& view_pairs(r->Ok_0@).to_multiset() == view_pairs(files@).to_multiset()
            &&& r->Ok_0@.len() == files@.len()
        },
        r is Err ==> r == Err::<Vec<(String, Vec<u8>)>, LnasError>(LnasError::DuplicateSurface)
            && !names_distinct(files@),
        r is Ok ==> names_distinct(files@),
        names_distinct(files@) ==> r is Ok,
{
    let mut out: Vec<(String, Vec<u8>)> = Vec::new();
    let n = files.len();
    proof {
        assert(view_pairs(out@) =~= view_pairs(files@.take(0)));
    }
    let mut m: usize = 0;
    while m < n
        invariant
            m <= n == files@.len(),
            out@.len() == m,
            names_sorted(out@),
            view_pairs(out@).to_multiset() == view_pairs(files@.take(m as int)).to_multiset(),
            names_distinct(files@.take(m as int)),
        decreases n - m,
    {
        let name = files[m].0.clone();
        let content = files[m].1.clone();
        let ghost gname = name@;
        let ghost gcontent = content@;
        proof {
            broadcast use vstd::seq_lib::group_to_multiset_ensures;

            assert((gname, gcontent) == view_pairs(files@)[m as int]);
        }
        let len = out.len();
        let mut j: usize = 0;
        while j < len
            invariant_except_break
                j <= len == out@.len(),
                name@ == gname,
                forall|k: int| 0 <= k < j ==> str_lt(#[trigger] out@[k].0@, gname),
            ensures
                j <= len == out@.len(),
                name@ == gname,
                forall|k: int| 0 <= k < j ==> str_lt(#[trigger] out@[k].0@, gname),
                j < len ==> !str_lt(out@[j as int].0@, gname),
            decreases len - j,
        {
            if !str_less(&out[j].0, &name) {
                break ;
            }
            j = j + 1;
        }
        if j < len && !str_less(&name, &out[j].0) {
            proof {
                broadcast use vstd::seq_lib::group_to_multiset_ensures;

                lemma_str_lt_connected(gname, out@[j as int].0@);
                assert(view_pairs(out@).to_multiset().contains(view_pairs(out@)[j as int]));
                assert(view_pairs(files@.take(m as int)).contains(view_pairs(out@)[j as int]));
                let w = choose|w: int|
                    0 <= w < m && view_pairs(files@.take(m as int))[w] == view_pairs(
                        out@,
                    )[j as int];
                assert(files@[w].0@ == gname && files@[m as int].0@ == gname);
                assert(!names_distinct(files@)) by {
                    if names_distinct(files@) {
                        assert(files@[w].0@ != files@[m as int].0@);
                    }
                }
            }
            return Err(LnasError::DuplicateSurface);
        }
        proof {
            broadcast use vstd::seq_lib::group_to_multiset_ensures;

            if j < out@.len() {
                assert(str_lt(gname, out@[j as int].0@));
            }
            assert forall|k: int| j <= k < out@.len() implies str_lt(
                gname,
                #[trigger] out@[k].0@,
            ) by {
                if k > j {
                    lemma_str_lt_transitive(gname, out@[j as int].0@, out@[k].0@);
                }
            }
            // no name of the sorted prefix equals the new name
            assert forall|k: int| 0 <= k < out@.len() implies out@[k].0@ != gname by {
                lemma_str_lt_irreflexive(gname);
                if out@[k].0@ == gname {
                    assert(str_lt(gname, gname));
                }
            }
            // hence the new name repeats no processed input name
            assert forall|i: int| 0 <= i < m implies files@[i].0@ != gname by {
                if files@[i].0@ == gname {
                    assert(view_pairs(files@.take(m as int)).to_multiset().contains(
                        view_pairs(files@.take(m as int))[i],
                    ));
                    assert(view_pairs(out@).contains(view_pairs(files@.take(m as int))[i]));
                    let w = choose|w: int|
                        0 <= w < out@.len() && view_pairs(out@)[w] == view_pairs(
                            files@.take(m as int),
                        )[i];
                    assert(out@[w].0@ == files@[i].0@);
                }
            }
            assert forall|i: int, jj: int| 0 <= i < jj < m + 1 implies (#[trigger] files@.take(
                m + 1,
            )[i].0@) != (#[trigger] files@.take(m + 1)[jj].0@) by {
                if jj < m {
                    assert(files@.take(m as int)[i].0@ != files@.take(m as int)[jj].0@);
                }
            }
        }
        let ghost old_out = out@;
        out.insert(j, (name, content));
        proof {
            broadcast use vstd::seq_lib::group_to_multiset_ensures;
            broadcast use vstd::seq_lib::to_multiset_insert;

            assert(out@[j as int].0@ == gname && out@[j as int].1@ == gcontent);
            assert(view_pairs(out@) =~= view_pairs(old_out).insert(j as int, (gname, gcontent)));
            assert(view_pairs(files@.take(m + 1)) =~= view_pairs(files@.take(m as int)).push(
                (gname, gcontent),
            ));
            assert(view_pairs(out@).to_multiset() == view_pairs(files@.take(m + 1)).to_multiset());
            assert forall|i: int, k: int| 0 <= i < k < out@.len() implies str_lt(
                (#[trigger] out@[i].0@),
                (#[trigger] out@[k].0@),
            ) by {
                if k < j {
                    assert(out@[i] == old_out[i] && out@[k] == old_out[k]);
                } else if i < j && k == j {
                    assert(out@[i] == old_out[i]);
                } else if i == j {
                    assert(out@[k] == old_out[k - 1]);
                } else if i < j && k > j {
                    assert(out@[i] == old_out[i] && out@[k] == old_out[k - 1]);
                } else {
                    assert(out@[i] == old_out[i - 1] && out@[k] == old_out[k - 1]);
                }
            }
        }
        m = m + 1;
    }
    proof {
        assert(files@.take(n as int) =~= files@);
        assert(names_distinct(files@));
    }
    Ok(out)
}

/// The first global triangle index of surface `j`: the lengths of the
/// index lists before it, summed.
pub open spec fn idx_offset(surfs: Seq<(String, Vec<u32>)>, j: int) -> int
    decreases j,
{
    if j <= 0 {
        0
    } else {
        idx_offset(surfs, j - 1) + surfs[j - 1].1@.len()
    }
}

proof fn lemma_idx_offset_mono(surfs: Seq<(String, Vec<u32>)>, j1: int, j2: int)
    requires
        0 <= j1 <= j2 <= surfs.len(),
    ensures
        idx_offset(surfs, j1) <= idx_offset(surfs, j2),
    decreases j2 - j1,
{
    if j1 < j2 {
        lemma_idx_offset_mono(surfs, j1 + 1, j2);
    }
}

proof fn lemma_idx_offset_push(surfs: Seq<(String, Vec<u32>)>, x: (String, Vec<u32>), j: int)
    requires
        0 <= j <= surfs.len(),
    ensures
        idx_offset(surfs.push(x), j) == idx_offset(surfs, j),
    decreases j,
{
    if j > 0 {
        lemma_idx_offset_push(surfs, x, j - 1);
    }
}

/// Decodes one surface's STL bytes into its kept triangles.
pub fn get_stl_triangles(stl_content: &Vec<u8>) -> (r: Result<Vec<TriangleSTL>, LnasError>)
    ensures
        r is Ok <==> stl_parses(stl_content@),
        r is Ok ==> r->Ok_0@ == stl_triangles(stl_content@),
        r is Err ==> (r->Err_0 == LnasError::TruncatedStl || r->Err_0 == LnasError::InvalidNormal),
{
    match read_stl(stl_content) {
        Ok((triangles, _n_dropped)) => Ok(triangles),
        Err(e) => Err(e),
    }
}

/// Whether surface `j` of the output is sound against some input file: it
/// carries that file's kept triangles, placed consecutively in the global
/// list starting at its offset.
pub open spec fn surface_matches(
    files: Seq<(String, Vec<u8>)>,
    all: Seq<TriangleSTL>,
    surfs: Seq<(String, Vec<u32>)>,
    j: int,
) -> bool {
    exists|i: int|
        {
            &&& 0 <= i < files.len()
            &&& (#[trigger] files[i]).0@ == surfs[j].0@
            &&& stl_parses(files[i].1@)
            &&& surfs[j].1@.len() == stl_triangles(files[i].1@).len()
            &&& (forall|k: int|
                0 <= k < surfs[j].1@.len() ==> #[trigger] surfs[j].1@[k] == idx_offset(surfs, j)
                    + k)
            &&& (forall|k: int|
                0 <= k < surfs[j].1@.len() ==> all[idx_offset(surfs, j) + k] == stl_triangles(
                    files[i].1@,
                )[k])
        }
}

/// Everything the aggregator promises of a successful result: one output
/// surface per input, names strictly ascending and covering every input
/// name, each surface matched against its input file's triangles, and the
/// global list exactly filled.
pub open spec fn surfaces_post(
    files: Seq<(String, Vec<u8>)>,
    all: Seq<TriangleSTL>,
    surfs: Seq<(String, Vec<u32>)>,
) -> bool {
    &&& surfs.len() == files.len()
    &&& (forall|i: int, j: int|
        0 <= i < j < surfs.len() ==> str_lt((#[trigger] surfs[i]).0@, (#[trigger] surfs[j]).0@))
    &&& names_covered(files, surfs)
    &&& (forall|j: int| 0 <= j < surfs.len() ==> surface_matches(files, all, surfs, j))
    &&& all.len() == idx_offset(surfs, surfs.len() as int)
}

/// The total number of kept triangles over a sequence of (name, content)
/// views.
pub open spec fn vtotal(ps: Seq<(Seq<char>, Seq<u8>)>) -> int
    decreases ps.len(),
{
    if ps.len() == 0 {
        0
    } else {
        vtotal(ps.drop_last()) + stl_triangles(ps.last().1).len()
    }
}

proof fn lemma_vtotal_nonneg(ps: Seq<(Seq<char>, Seq<u8>)>)
    ensures
        vtotal(ps) >= 0,
    decreases ps.len(),
{
    if ps.len() > 0 {
        lemma_vtotal_nonneg(ps.drop_last());
    }
}

proof fn lemma_vtotal_take_grows(ps: Seq<(Seq<char>, Seq<u8>)>, m: int, n: int)
    requires
        0 <= m <= n <= ps.len(),
    ensures
        vtotal(ps.take(m)) <= vtotal(ps.take(n)),
    decreases n - m,
{
    if m < n {
        lemma_vtotal_take_grows(ps, m + 1, n);
        assert(ps.take(m + 1).drop_last() =~= ps.take(m));
    }
}

proof fn lemma_vtotal_remove(ps: Seq<(Seq<char>, Seq<u8>)>, i: int)
    requires
        0 <= i < ps.len(),
    ensures
        vtotal(ps) == vtotal(ps.remove(i)) + stl_triangles(ps[i].1).len(),
    decreases ps.len(),
{
    if i == ps.len() - 1 {
        assert(ps.remove(i) =~= ps.drop_last());
    } else {
        lemma_vtotal_remove(ps.drop_last(), i);
        assert(ps.remove(i).drop_last() =~= ps.drop_last().remove(i));
        assert(ps.remove(i).last() == ps.last());
    }
}

/// The total is the same for any two arrangements of the same inputs.
proof fn lemma_vtotal_permutation(a: Seq<(Seq<char>, Seq<u8>)>, b: Seq<(Seq<char>, Seq<u8>)>)
    requires
        a.to_multiset() == b.to_multiset(),
    ensures
        vtotal(a) == vtotal(b),
    decreases a.len(),
{
    broadcast use vstd::seq_lib::group_to_multiset_ensures;

    if a.len() == 0 {
        assert(b.to_multiset().len() == 0);
        assert(b =~= Seq::<(Seq<char>, Seq<u8>)>::empty());
    } else {
        let x = a.last();
        assert(a.to_multiset().contains(x));
        assert(b.to_multiset().contains(x));
        assert(b.contains(x));
        let i = choose|i: int| 0 <= i < b.len() && b[i] == x;
        lemma_vtotal_remove(b, i);
        assert(a.drop_last() =~= a.remove(a.len() - 1));
        assert(a.remove(a.len() - 1).to_multiset() == a.to_multiset().remove(x));
        assert(b.remove(i).to_multiset() == b.to_multiset().remove(x));
        lemma_vtotal_permutation(a.drop_last(), b.remove(i));
    }
}

/// Whether position `q` of the global triangle list lies in some
/// surface's index range.
pub open spec fn index_covered(surfs: Seq<(String, Vec<u32>)>, q: int) -> bool {
    exists|j: int, k: int|
        0 <= j < surfs.len() && 0 <= k < surfs[j].1@.len() && #[trigger] (surfs[j].1@[k]) == q
}

/// Surface index validity: every index of every surface is a valid offset
/// into the global triangle list, and the surfaces' ranges together cover
/// that list completely, with no gaps.
pub proof fn lemma_surface_indices_valid(
    files: Seq<(String, Vec<u8>)>,
    all: Seq<TriangleSTL>,
    surfs: Seq<(String, Vec<u32>)>,
)
    requires
        surfaces_post(files, all, surfs),
    ensures
        forall|j: int, k: int|
            0 <= j < surfs.len() && 0 <= k < (#[trigger] surfs[j].1)@.len() ==> 0 <= #[trigger] (
            surfs[j].1@[k]) < all.len(),
        forall|q: int| 0 <= q < all.len() ==> #[trigger] index_covered(surfs, q),
{
    assert forall|j: int, k: int|
        0 <= j < surfs.len() && 0 <= k < (#[trigger] surfs[j].1)@.len() implies 0 <= #[trigger] (
    surfs[j].1@[k]) < all.len() by {
        assert(surface_matches(files, all, surfs, j));
        assert(surfs[j].1@[k] == idx_offset(surfs, j) + k);
        lemma_idx_offset_mono(surfs, 0, j);
        lemma_idx_offset_mono(surfs, j + 1, surfs.len() as int);
        assert(idx_offset(surfs, j + 1) == idx_offset(surfs, j) + surfs[j].1@.len());
    }
    assert forall|q: int| 0 <= q < all.len() implies #[trigger] index_covered(surfs, q) by {
        lemma_offset_locate(surfs, surfs.len() as int, q);
        let j = choose|j: int|
            0 <= j < surfs.len() && idx_offset(surfs, j) <= q < idx_offset(surfs, j) + (
            #[trigger] surfs[j].1)@.len();
        assert(surface_matches(files, all, surfs, j));
        let k = q - idx_offset(surfs, j);
        assert(surfs[j].1@[k] == idx_offset(surfs, j) + k);
        assert(0 <= j < surfs.len() && 0 <= k < surfs[j].1@.len() && surfs[j].1@[k] == q);
    }
}

/// Two strictly ascending name sequences that hold the same names are the
/// same sequence.
proof fn lemma_sorted_names_unique(a: Seq<Seq<char>>, b: Seq<Seq<char>>)
    requires
        forall|i: int, j: int| 0 <= i < j < a.len() ==> str_lt(#[trigger] a[i], #[trigger] a[j]),
        forall|i: int, j: int| 0 <= i < j < b.len() ==> str_lt(#[trigger] b[i], #[trigger] b[j]),
        forall|x: Seq<char>| a.contains(x) <==> b.contains(x),
    ensures
        a == b,
    decreases a.len(),
{
    if a.len() == 0 {
        if b.len() > 0 {
            assert(b.contains(b[0]));
            assert(a.contains(b[0]));
        }
        assert(a =~= b);
    } else if b.len() == 0 {
        assert(a.contains(a[0]));
        assert(b.contains(a[0]));
    } else {
        assert(a.contains(a[0]));
        assert(b.contains(a[0]));
        let i = choose|i: int| 0 <= i < b.len() && b[i] == a[0];
        assert(b.contains(b[0]));
        assert(a.contains(b[0]));
        let j = choose|j: int| 0 <= j < a.len() && a[j] == b[0];
        if i > 0 {
            assert(str_lt(b[0], b[i]));
            if j > 0 {
                assert(str_lt(a[0], a[j]));
                lemma_str_lt_transitive(b[0], a[0], b[0]);
                lemma_str_lt_irreflexive(b[0]);
                assert(false);
            }
            lemma_str_lt_irreflexive(a[0]);
            assert(false);
        }
        assert(a[0] == b[0]);
        assert forall|x: Seq<char>|
            a.drop_first().contains(x) <==> b.drop_first().contains(x) by {
            lemma_str_lt_irreflexive(a[0]);
            if a.drop_first().contains(x) {
                let k = choose|k: int| 0 <= k < a.drop_first().len() && a.drop_first()[k] == x;
                assert(a[k + 1] == x);
                assert(str_lt(a[0], x));
                assert(b.contains(x)) by {
                    assert(a.contains(x));
                }
                let w = choose|w: int| 0 <= w < b.len() && b[w] == x;
                if w == 0 {
                    assert(x == b[0]);
                    assert(false);
                }
                assert(b.drop_first()[w - 1] == x);
                assert(b.drop_first().contains(x));
            }
            if b.drop_first().contains(x) {
                let k = choose|k: int| 0 <= k < b.drop_first().len() && b.drop_first()[k] == x;
                assert(b[k + 1] == x);
                assert(str_lt(b[0], x));
                assert(a.contains(x)) by {
                    assert(b.contains(x));
                }
                let w = choose|w: int| 0 <= w < a.len() && a[w] == x;
                if w == 0 {
                    assert(x == a[0]);
                    assert(false);
                }
                assert(a.drop_first()[w - 1] == x);
                assert(a.drop_first().contains(x));
            }
        }
        assert(forall|i2: int, j2: int|
            0 <= i2 < j2 < a.drop_first().len() ==> str_lt(
                #[trigger] a.drop_first()[i2],
                #[trigger] a.drop_first()[j2],
            ));
        assert(forall|i2: int, j2: int|
            0 <= i2 < j2 < b.drop_first().len() ==> str_lt(
                #[trigger] b.drop_first()[i2],
                #[trigger] b.drop_first()[j2],
            ));
        lemma_sorted_names_unique(a.drop_first(), b.drop_first());
        assert forall|k: int| 0 <= k < a.len() implies a[k] == b[k] by {
            if k > 0 {
                assert(a[k] == a.drop_first()[k - 1]);
                assert(b[k] == b.drop_first()[k - 1]);
            }
        }
        assert(a =~= b);
    }
}

/// Locates the surface whose contiguous index range holds position `q`.
proof fn lemma_offset_locate(surfs: Seq<(String, Vec<u32>)>, n: int, q: int)
    requires
        0 <= n <= surfs.len(),
        0 <= q < idx_offset(surfs, n),
    ensures
        exists|j: int|
            0 <= j < n && idx_offset(surfs, j) <= q < idx_offset(surfs, j) + (
            #[trigger] surfs[j].1)@.len(),
    decreases n,
{
    if n > 0 {
        if q >= idx_offset(surfs, n - 1) {
            assert(idx_offset(surfs, n - 1) <= q < idx_offset(surfs, n - 1) + surfs[n
                - 1].1@.len());
        } else {
            lemma_offset_locate(surfs, n - 1, q);
        }
    }
}

proof fn lemma_offsets_equal(
    surfs1: Seq<(String, Vec<u32>)>,
    surfs2: Seq<(String, Vec<u32>)>,
    j: int,
)
    requires
        0 <= j <= surfs1.len(),
        surfs1.len() == surfs2.len(),
        forall|k: int|
            0 <= k < surfs1.len() ==> (#[trigger] surfs1[k].1)@.len() == (
            #[trigger] surfs2[k].1)@.len(),
    ensures
        idx_offset(surfs1, j) == idx_offset(surfs2, j),
    decreases j,
{
    if j > 0 {
        lemma_offsets_equal(surfs1, surfs2, j - 1);
    }
}

/// Determinism of the aggregation: over distinct input names, the sorted
/// order and the contiguous ranges leave exactly one possible output, so
/// two runs on the same inputs agree on every triangle, name and index.
pub proof fn lemma_surfaces_deterministic(
    files: Seq<(String, Vec<u8>)>,
    all1: Seq<TriangleSTL>,
    surfs1: Seq<(String, Vec<u32>)>,
    all2: Seq<TriangleSTL>,
    surfs2: Seq<(String, Vec<u32>)>,
)
    requires
        names_distinct(files),
        surfaces_post(files, all1, surfs1),
        surfaces_post(files, all2, surfs2),
    ensures
        all1 == all2,
        surfs1.len() == surfs2.len(),
        forall|j: int|
            0 <= j < surfs1.len() ==> (#[trigger] surfs1[j]).0@ == (#[trigger] surfs2[j]).0@
                && surfs1[j].1@ == surfs2[j].1@,
{
    let n1 = surfs1.map_values(|p: (String, Vec<u32>)| p.0@);
    let n2 = surfs2.map_values(|p: (String, Vec<u32>)| p.0@);
    assert forall|x: Seq<char>| n1.contains(x) <==> n2.contains(x) by {
        if n1.contains(x) {
            let j = choose|j: int| 0 <= j < n1.len() && n1[j] == x;
            assert(surface_matches(files, all1, surfs1, j));
            let i = choose|i: int|
                0 <= i < files.len() && (#[trigger] files[i]).0@ == surfs1[j].0@ && stl_parses(
                    files[i].1@,
                );
            assert(names_covered(files, surfs2));
            let j2 = choose|j2: int|
                0 <= j2 < surfs2.len() && (#[trigger] surfs2[j2]).0@ == (#[trigger] files[i]).0@;
            assert(n2[j2] == x);
            assert(n2.contains(x));
        }
        if n2.contains(x) {
            let j = choose|j: int| 0 <= j < n2.len() && n2[j] == x;
            assert(surface_matches(files, all2, surfs2, j));
            let i = choose|i: int|
                0 <= i < files.len() && (#[trigger] files[i]).0@ == surfs2[j].0@ && stl_parses(
                    files[i].1@,
                );
            assert(names_covered(files, surfs1));
            let j2 = choose|j2: int|
                0 <= j2 < surfs1.len() && (#[trigger] surfs1[j2]).0@ == (#[trigger] files[i]).0@;
            assert(n1[j2] == x);
            assert(n1.contains(x));
        }
    }
    assert(forall|i: int, j: int|
        0 <= i < j < n1.len() ==> str_lt(#[trigger] n1[i], #[trigger] n1[j]));
    assert(forall|i: int, j: int|
        0 <= i < j < n2.len() ==> str_lt(#[trigger] n2[i], #[trigger] n2[j]));
    lemma_sorted_names_unique(n1, n2);
    assert forall|j: int|
        0 <= j < surfs1.len() implies (#[trigger] surfs1[j]).0@ == (#[trigger] surfs2[j]).0@ by {
        assert(n1[j] == n2[j]);
    }
    // the same input file backs position j on both sides
    assert forall|j: int|
        0 <= j < surfs1.len() implies (#[trigger] surfs1[j].1)@.len() == (
        #[trigger] surfs2[j].1)@.len() by {
        assert(surface_matches(files, all1, surfs1, j));
        assert(surface_matches(files, all2, surfs2, j));
        let i1 = choose|i1: int|
            {
                &&& 0 <= i1 < files.len()
                &&& (#[trigger] files[i1]).0@ == surfs1[j].0@
                &&& stl_parses(files[i1].1@)
                &&& surfs1[j].1@.len() == stl_triangles(files[i1].1@).len()
            };
        let i2 = choose|i2: int|
            {
                &&& 0 <= i2 < files.len()
                &&& (#[trigger] files[i2]).0@ == surfs2[j].0@
                &&& stl_parses(files[i2].1@)
                &&& surfs2[j].1@.len() == stl_triangles(files[i2].1@).len()
            };
        if i1 != i2 {
            assert(files[i1].0@ == files[i2].0@);
            assert(false);
        }
    }
    assert forall|j: int| 0 <= j < surfs1.len() implies surfs1[j].1@ == surfs2[j].1@ by {
        lemma_offsets_equal(surfs1, surfs2, j);
        assert(surface_matches(files, all1, surfs1, j));
        assert(surface_matches(files, all2, surfs2, j));
        assert forall|k: int| 0 <= k < surfs1[j].1@.len() implies surfs1[j].1@[k]
            == surfs2[j].1@[k] by {
            assert(surfs1[j].1@[k] == idx_offset(surfs1, j) + k);
            assert(surfs2[j].1@[k] == idx_offset(surfs2, j) + k);
        }
        assert(surfs1[j].1@ =~= surfs2[j].1@);
    }
    // every position of the global list sits in some surface's range
    lemma_offsets_equal(surfs1, surfs2, surfs1.len() as int);
    assert(all1.len() == all2.len());
    assert forall|q: int| 0 <= q < all1.len() implies all1[q] == all2[q] by {
        lemma_offset_locate(surfs1, surfs1.len() as int, q);
        let j = choose|j: int|
            0 <= j < surfs1.len() && idx_offset(surfs1, j) <= q < idx_offset(surfs1, j) + (
            #[trigger] surfs1[j].1)@.len();
        lemma_offsets_equal(surfs1, surfs2, j);
        assert(surface_matches(files, all1, surfs1, j));
        assert(surface_matches(files, all2, surfs2, j));
        let i1 = choose|i1: int|
            {
                &&& 0 <= i1 < files.len()
                &&& (#[trigger] files[i1]).0@ == surfs1[j].0@
                &&& stl_parses(files[i1].1@)
                &&& surfs1[j].1@.len() == stl_triangles(files[i1].1@).len()
                &&& (forall|k: int|
                    0 <= k < surfs1[j].1@.len() ==> #[trigger] surfs1[j].1@[k] == idx_offset(
                        surfs1,
                        j,
                    ) + k)
                &&& (forall|k: int|
                    0 <= k < surfs1[j].1@.len() ==> all1[idx_offset(surfs1, j) + k]
                        == stl_triangles(files[i1].1@)[k])
            };
        let i2 = choose|i2: int|
            {
                &&& 0 <= i2 < files.len()
                &&& (#[trigger] files[i2]).0@ == surfs2[j].0@
                &&& stl_parses(files[i2].1@)
                &&& surfs2[j].1@.len() == stl_triangles(files[i2].1@).len()
                &&& (forall|k: int|
                    0 <= k < surfs2[j].1@.len() ==> #[trigger] surfs2[j].1@[k] == idx_offset(
                        surfs2,
                        j,
                    ) + k)
                &&& (forall|k: int|
                    0 <= k < surfs2[j].1@.len() ==> all2[idx_offset(surfs2, j) + k]
                        == stl_triangles(files[i2].1@)[k])
            };
        if i1 != i2 {
            assert(files[i1].0@ == files[i2].0@);
            assert(false);
        }
        let k = q - idx_offset(surfs1, j);
        assert(all1[idx_offset(surfs1, j) + k] == stl_triangles(files[i1].1@)[k]);
        assert(all2[idx_offset(surfs2, j) + k] == stl_triangles(files[i2].1@)[k]);
    }
    assert(all1 =~= all2);
}

/// Aggregates the named STL inputs, in lexicographic name order, into one
/// global triangle list and one contiguous index range per surface.
///
/// Success is owed exactly when the names are distinct, every input
/// decodes, and the result fits 32-bit indexing; an index overflow needs
/// more than u32::MAX triangles in total.
#[verifier::rlimit(30)]
pub fn get_surfaces(files: &Vec<(String, Vec<u8>)>) -> (r: Result<
    (Vec<TriangleSTL>, Vec<(String, Vec<u32>)>),
    LnasError,
>)
    ensures
        !names_distinct(files@) ==> r == Err::<
            (Vec<TriangleSTL>, Vec<(String, Vec<u32>)>),
            LnasError,
        >(LnasError::DuplicateSurface),
        (names_distinct(files@) && r is Err) ==> (r->Err_0 == LnasError::TruncatedStl || r->Err_0
            == LnasError::InvalidNormal || r->Err_0 == LnasError::IndexOverflow),
        (names_distinct(files@) && r is Err && r->Err_0 != LnasError::IndexOverflow) ==> exists|
            i: int,
        | 0 <= i < files@.len() && !stl_parses((#[trigger] files@[i]).1@),
        r == Err::<(Vec<TriangleSTL>, Vec<(String, Vec<u32>)>), LnasError>(LnasError::IndexOverflow)
            ==> vtotal(view_pairs(files@)) > u32::MAX,
        (names_distinct(files@) && (forall|i: int|
            0 <= i < files@.len() ==> stl_parses((#[trigger] files@[i]).1@)) && vtotal(
            view_pairs(files@),
        ) <= u32::MAX) ==> r is Ok,
        r is Ok ==> surfaces_post(files@, r->Ok_0.0@, r->Ok_0.1@),
{
    let sorted = match sort_files(files) {
        Ok(s) => s,
        Err(e) => {
            return Err(e);
        },
    };
    let mut all_triangles: Vec<TriangleSTL> = Vec::new();
    let mut surfaces_triangles: Vec<(String, Vec<u32>)> = Vec::new();
    let n = sorted.len();
    proof {
        assert(view_pairs(sorted@.take(0)) =~= Seq::<(Seq<char>, Seq<u8>)>::empty());
    }
    let mut m: usize = 0;
    while m < n
        invariant
            m <= n == sorted@.len(),
            sorted@.len() == files@.len(),
            names_distinct(files@),
            names_sorted(sorted@),
            view_pairs(sorted@).to_multiset() == view_pairs(files@).to_multiset(),
            surfaces_triangles@.len() == m,
            all_triangles@.len() <= u32::MAX,
            forall|i: int, j: int|
                0 <= i < j < m ==> str_lt(
                    (#[trigger] surfaces_triangles@[i]).0@,
                    (#[trigger] surfaces_triangles@[j]).0@,
                ),
            forall|j: int| 0 <= j < m ==> (#[trigger] surfaces_triangles@[j]).0@ == sorted@[j].0@,
            forall|j: int|
                0 <= j < m ==> surface_matches(files@, all_triangles@, surfaces_triangles@, j),
            all_triangles@.len() == idx_offset(surfaces_triangles@, m as int),
            all_triangles@.len() == vtotal(view_pairs(sorted@.take(m as int))),
        decreases n - m,
    {
        let stl_triangles_vec = match get_stl_triangles(&sorted[m].1) {
            Ok(v) => v,
            Err(e) => {
                proof {
                    broadcast use vstd::seq_lib::group_to_multiset_ensures;

                    assert(view_pairs(files@).to_multiset().contains(
                        view_pairs(sorted@)[m as int],
                    ));
                    assert(view_pairs(files@).contains(view_pairs(sorted@)[m as int]));
                    let w = choose|w: int|
                        0 <= w < files@.len() && view_pairs(files@)[w] == view_pairs(
                            sorted@,
                        )[m as int];
                    assert(files@[w].1@ == sorted@[m as int].1@);
                    assert(!stl_parses(files@[w].1@));
                }
                return Err(e);
            },
        };
        let start = all_triangles.len();
        let added = stl_triangles_vec.len();
        proof {
            assert(view_pairs(sorted@.take(m + 1)).drop_last() =~= view_pairs(
                sorted@.take(m as int),
            ));
            assert(view_pairs(sorted@.take(m + 1)).last() == (sorted@[m as int].0@, sorted@[m
                as int].1@));
            assert(vtotal(view_pairs(sorted@.take(m + 1))) == start + added);
        }
        if added > u32::MAX as usize - start {
            proof {
                assert(view_pairs(sorted@.take(m + 1)) =~= view_pairs(sorted@).take(m + 1));
                assert(view_pairs(sorted@.take(n as int)) =~= view_pairs(sorted@).take(n as int));
                lemma_vtotal_take_grows(view_pairs(sorted@), m + 1, n as int);
                assert(view_pairs(sorted@).take(n as int) =~= view_pairs(sorted@));
                assert(vtotal(view_pairs(sorted@)) > u32::MAX);
                lemma_vtotal_permutation(view_pairs(sorted@), view_pairs(files@));
            }
            return Err(LnasError::IndexOverflow);
        }
        let mut idxs: Vec<u32> = Vec::new();
        let mut k: usize = 0;
        while k < added
            invariant
                k <= added,
                start + added <= u32::MAX,
                idxs@.len() == k,
                forall|q: int| 0 <= q < k ==> idxs@[q] == start + q,
            decreases added - k,
        {
            idxs.push((start + k) as u32);
            k = k + 1;
        }
        let ghost all_before = all_triangles@;
        let mut t: usize = 0;
        while t < added
            invariant
                t <= added == stl_triangles_vec@.len(),
                all_triangles@ == all_before + stl_triangles_vec@.take(t as int),
                all_before.len() == start,
            decreases added - t,
        {
            all_triangles.push(stl_triangles_vec[t]);
            proof {
                assert(all_before + stl_triangles_vec@.take(t as int) + seq![stl_triangles_vec@[t as int]]
                    =~= all_before + stl_triangles_vec@.take(t + 1));
            }
            t = t + 1;
        }
        proof {
            assert(stl_triangles_vec@.take(added as int) =~= stl_triangles_vec@);
        }
        let name = sorted[m].0.clone();
        let ghost old_surfs = surfaces_triangles@;
        surfaces_triangles.push((name, idxs));
        proof {
            broadcast use vstd::seq_lib::group_to_multiset_ensures;

            assert forall|j: int| 0 <= j <= old_surfs.len() implies idx_offset(
                surfaces_triangles@,
                j,
            ) == idx_offset(old_surfs, j) by {
                lemma_idx_offset_push(old_surfs, surfaces_triangles@[m as int], j);
            }
            assert(idx_offset(surfaces_triangles@, m + 1) == start + added);
            assert(view_pairs(files@).to_multiset().contains(view_pairs(sorted@)[m as int]));
            assert(view_pairs(files@).contains(view_pairs(sorted@)[m as int]));
            let w = choose|w: int|
                0 <= w < files@.len() && view_pairs(files@)[w] == view_pairs(sorted@)[m as int];
            assert(files@[w].1@ == sorted@[m as int].1@);
            assert(files@[w].0@ == surfaces_triangles@[m as int].0@);
            assert(stl_parses(files@[w].1@));
            assert forall|k2: int|
                0 <= k2 < surfaces_triangles@[m as int].1@.len() implies all_triangles@[idx_offset(
                surfaces_triangles@,
                m as int,
            ) + k2] == stl_triangles(files@[w].1@)[k2] by {
                assert(all_triangles@[start + k2] == stl_triangles_vec@[k2]);
            }
            assert(surface_matches(files@, all_triangles@, surfaces_triangles@, m as int));
            assert forall|j: int| 0 <= j < m implies surface_matches(
                files@,
                all_triangles@,
                surfaces_triangles@,
                j,
            ) by {
                assert(surface_matches(files@, all_before, old_surfs, j));
                let wi = choose|wi: int|
                    {
                        &&& 0 <= wi < files@.len()
                        &&& (#[trigger] files@[wi]).0@ == old_surfs[j].0@
                        &&& stl_parses(files@[wi].1@)
                        &&& old_surfs[j].1@.len() == stl_triangles(files@[wi].1@).len()
                        &&& (forall|k2: int|
                            0 <= k2 < old_surfs[j].1@.len() ==> #[trigger] old_surfs[j].1@[k2]
                                == idx_offset(old_surfs, j) + k2)
                        &&& (forall|k2: int|
                            0 <= k2 < old_surfs[j].1@.len() ==> all_before[idx_offset(old_surfs, j)
                                + k2] == stl_triangles(files@[wi].1@)[k2])
                    };
                assert(surfaces_triangles@[j] == old_surfs[j]);
                assert(idx_offset(surfaces_triangles@, j) == idx_offset(old_surfs, j));
                assert forall|k2: int|
                    0 <= k2 < surfaces_triangles@[j].1@.len() implies all_triangles@[idx_offset(
                    surfaces_triangles@,
                    j,
                ) + k2] == stl_triangles(files@[wi].1@)[k2] by {
                    lemma_idx_offset_mono(old_surfs, 0, j);
                    lemma_idx_offset_mono(old_surfs, j + 1, m as int);
                    assert(idx_offset(old_surfs, j + 1) == idx_offset(old_surfs, j)
                        + old_surfs[j].1@.len());
                    assert(idx_offset(old_surfs, j) + k2 < start);
                    assert(all_triangles@ == all_before + stl_triangles_vec@);
                    assert((all_before + stl_triangles_vec@)[idx_offset(old_surfs, j) + k2]
                        == all_before[idx_offset(old_surfs, j) + k2]);
                    assert(all_triangles@[idx_offset(old_surfs, j) + k2] == all_before[idx_offset(
                        old_surfs,
                        j,
                    ) + k2]);
                }
            }
        }
        m = m + 1;
    }
    proof {
        broadcast use vstd::seq_lib::group_to_multiset_ensures;

        assert forall|i: int| 0 <= i < files@.len() implies exists|j: int|
            0 <= j < surfaces_triangles@.len() && (#[trigger] surfaces_triangles@[j]).0@ == (
            #[trigger] files@[i]).0@ by {
            broadcast use vstd::seq_lib::group_to_multiset_ensures;

            assert(view_pairs(files@).to_multiset().contains(view_pairs(files@)[i]));
            assert(view_pairs(sorted@).contains(view_pairs(files@)[i]));
            let w = choose|w: int|
                0 <= w < sorted@.len() && view_pairs(sorted@)[w] == view_pairs(files@)[i];
            assert(surfaces_triangles@[w].0@ == files@[i].0@);
        }
        assert(names_covered(files@, surfaces_triangles@));
        assert(surfaces_post(files@, all_triangles@, surfaces_triangles@));
    }
    proof {
        assert(surfaces_triangles@.len() == files@.len());
        assert(all_triangles@.len() == idx_offset(
            surfaces_triangles@,
            surfaces_triangles@.len() as int,
        ));
        assert(forall|j: int|
            0 <= j < surfaces_triangles@.len() ==> surface_matches(
                files@,
                all_triangles@,
                surfaces_triangles@,
                j,
            ));
        assert(forall|i: int, j: int|
            0 <= i < j < surfaces_triangles@.len() ==> str_lt(
                (#[trigger] surfaces_triangles@[i]).0@,
                (#[trigger] surfaces_triangles@[j]).0@,
            ));
    }
    Ok((all_triangles, surfaces_triangles))
}

} // verus!

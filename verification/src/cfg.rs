use vstd::prelude::*;
use vstd::string::StrSliceExecFns;
use crate::errors::LnasError;

verus! {

/// The resolved command line: directories to scan, single files to take,
/// the output path, and whether an existing output may be replaced.
pub struct Args {
    pub dir: Vec<String>,
    pub file: Vec<String>,
    pub output: String,
    pub overwrite: bool,
}

/// Whether a path ends in the `.stl` extension.
pub open spec fn ends_with_stl(s: Seq<char>) -> bool {
    s.len() >= 4 && s.subrange(s.len() - 4, s.len() as int) == ".stl"@
}

/// The index of the last `/` strictly before position `k`, or -1.
pub open spec fn last_slash_before(s: Seq<char>, k: int) -> int
    decreases k,
{
    if k <= 0 {
        -1
    } else if s[k - 1] == '/' {
        k - 1
    } else {
        last_slash_before(s, k - 1)
    }
}

/// The surface name a path resolves to: the file name without its
/// directory part and without the `.stl` extension.
pub open spec fn stem_of(s: Seq<char>) -> Seq<char> {
    s.subrange(last_slash_before(s, s.len() - 4) + 1, s.len() - 4)
}

/// The (name, path) pairs that one directory listing contributes: its
/// `.stl` entries, in listing order.
pub open spec fn listing_pairs(l: Seq<String>) -> Seq<(Seq<char>, Seq<char>)>
    decreases l.len(),
{
    if l.len() == 0 {
        Seq::empty()
    } else if ends_with_stl(l.last()@) {
        listing_pairs(l.drop_last()).push((stem_of(l.last()@), l.last()@))
    } else {
        listing_pairs(l.drop_last())
    }
}

/// The pairs that all directory listings contribute, in order.
pub open spec fn dirs_pairs(ls: Seq<Vec<String>>) -> Seq<(Seq<char>, Seq<char>)>
    decreases ls.len(),
{
    if ls.len() == 0 {
        Seq::empty()
    } else {
        dirs_pairs(ls.drop_last()) + listing_pairs(ls.last()@)
    }
}

/// The pairs the single-file arguments contribute, in order.
pub open spec fn files_pairs(fs: Seq<String>) -> Seq<(Seq<char>, Seq<char>)>
    decreases fs.len(),
{
    if fs.len() == 0 {
        Seq::empty()
    } else {
        files_pairs(fs.drop_last()).push((stem_of(fs.last()@), fs.last()@))
    }
}

/// Every name-path pair the arguments resolve to, directories first.
pub open spec fn all_pairs(args: Args, listings: Seq<Vec<String>>) -> Seq<(Seq<char>, Seq<char>)> {
    dirs_pairs(listings) + files_pairs(args.file@)
}

/// Whether all resolved surface names are distinct.
pub open spec fn pair_names_distinct(ps: Seq<(Seq<char>, Seq<char>)>) -> bool {
    forall|i: int, j: int| 0 <= i < j < ps.len() ==> (#[trigger] ps[i]).0 != (#[trigger] ps[j]).0
}

fn ends_with_stl_exec(s: &String) -> (r: bool)
    ensures
        r == ends_with_stl(s@),
{
    let n = s.as_str().unicode_len();
    if n < 4 {
        return false;
    }
    let c0 = s.as_str().get_char(n - 4);
    let c1 = s.as_str().get_char(n - 3);
    let c2 = s.as_str().get_char(n - 2);
    let c3 = s.as_str().get_char(n - 1);
    proof {
        reveal_strlit(".stl");
    }
    let r = c0 == '.' && c1 == 's' && c2 == 't' && c3 == 'l';
    proof {
        if r {
            assert(s@.subrange(s@.len() - 4, s@.len() as int) =~= ".stl"@);
        } else {
            assert(s@.subrange(s@.len() - 4, s@.len() as int).len() == 4);
            if s@.subrange(s@.len() - 4, s@.len() as int) == ".stl"@ {
                assert(s@.subrange(s@.len() - 4, s@.len() as int)[0] == s@[s@.len() - 4]);
                assert(s@.subrange(s@.len() - 4, s@.len() as int)[1] == s@[s@.len() - 3]);
                assert(s@.subrange(s@.len() - 4, s@.len() as int)[2] == s@[s@.len() - 2]);
                assert(s@.subrange(s@.len() - 4, s@.len() as int)[3] == s@[s@.len() - 1]);
            }
        }
    }
    r
}

/// The name a `.stl` path resolves to.
fn stem_exec(s: &String) -> (r: String)
    requires
        ends_with_stl(s@),
    ensures
        r@ == stem_of(s@),
{
    let n = s.as_str().unicode_len();
    let stop = n - 4;
    let mut cut: usize = 0;
    let mut i: usize = 0;
    while i < stop
        invariant
            i <= stop <= s@.len(),
            cut <= i,
            cut == last_slash_before(s@, i as int) + 1,
        decreases stop - i,
    {
        if s.as_str().get_char(i) == '/' {
            cut = i + 1;
        }
        i = i + 1;
    }
    let stem = s.as_str().substring_char(cut, stop);
    stem.to_owned()
}

fn push_pair(
    out: &mut Vec<(String, String)>,
    name: String,
    path: String,
)
    ensures
        final(out)@ == old(out)@ + seq![(name, path)],
{
    out.push((name, path));
    assert(final(out)@ =~= old(out)@ + seq![(name, path)]);
}

/// The views of the collected pairs.
pub open spec fn pairs_view(ps: Seq<(String, String)>) -> Seq<(Seq<char>, Seq<char>)> {
    ps.map_values(|p: (String, String)| (p.0@, p.1@))
}

proof fn lemma_pairs_view_push(s: Seq<(String, String)>, p: (String, String))
    ensures
        pairs_view(s.push(p)) == pairs_view(s).push((p.0@, p.1@)),
{
    assert(pairs_view(s.push(p)) =~= pairs_view(s).push((p.0@, p.1@)));
}

impl Args {
    /// Resolves every surface name to its source path: the `.stl` entries
    /// of each listed directory, then the single-file arguments, each
    /// named by its file stem. Fails on a file argument without the
    /// `.stl` extension, and on a repeated surface name.
    ///
    /// `dir_listings[k]` holds the file paths found in `self.dir[k]`.
    pub fn all_stls(&self, dir_listings: &Vec<Vec<String>>) -> (r: Result<
        Vec<(String, String)>,
        LnasError,
    >)
        requires
            dir_listings@.len() == self.dir@.len(),
        ensures
            r is Ok <==> ((forall|i: int|
                0 <= i < self.file@.len() ==> ends_with_stl((#[trigger] self.file@[i])@))
                && pair_names_distinct(all_pairs(*self, dir_listings@))),
            r is Ok ==> pairs_view(r->Ok_0@) == all_pairs(*self, dir_listings@),
            r is Err ==> (r->Err_0 == LnasError::InvalidStlName || r->Err_0
                == LnasError::DuplicateSurface),
    {
        let mut out: Vec<(String, String)> = Vec::new();
        let nd = dir_listings.len();
        proof {
            assert(pairs_view(out@) =~= dirs_pairs(dir_listings@.take(0)));
        }
        let mut d: usize = 0;
        while d < nd
            invariant
                d <= nd == dir_listings@.len(),
                pairs_view(out@) == dirs_pairs(dir_listings@.take(d as int)),
            decreases nd - d,
        {
            let listing = &dir_listings[d];
            let nl = listing.len();
            proof {
                assert(listing@.take(0) =~= Seq::<String>::empty());
                assert(pairs_view(out@) + listing_pairs(listing@.take(0)) =~= pairs_view(out@));
            }
            let ghost out_before = out@;
            let mut e: usize = 0;
            while e < nl
                invariant
                    e <= nl == listing@.len(),
                    d < dir_listings@.len(),
                    listing == dir_listings@[d as int],
                    pairs_view(out@) == pairs_view(out_before) + listing_pairs(
                        listing@.take(e as int),
                    ),
                decreases nl - e,
            {
                proof {
                    assert(listing@.take(e + 1).drop_last() =~= listing@.take(e as int));
                    assert(listing@.take(e + 1).last() == listing@[e as int]);
                }
                if ends_with_stl_exec(&listing[e]) {
                    let name = stem_exec(&listing[e]);
                    let path = listing[e].clone();
                    let ghost opre = out@;
                    let ghost gpair = ((name@, path@));
                    push_pair(&mut out, name, path);
                    proof {
                        assert(out@ =~= opre.push(((out@.last().0), (out@.last().1))));
                        lemma_pairs_view_push(opre, out@.last());
                        assert(out@.last().0@ == gpair.0 && out@.last().1@ == gpair.1);
                        assert(listing_pairs(listing@.take(e + 1)) == listing_pairs(
                            listing@.take(e as int),
                        ).push(gpair));
                        assert(pairs_view(out@) =~= pairs_view(out_before) + listing_pairs(
                            listing@.take(e + 1),
                        ));
                    }
                } else {
                    proof {
                        assert(listing_pairs(listing@.take(e + 1)) == listing_pairs(
                            listing@.take(e as int),
                        ));
                    }
                }
                e = e + 1;
            }
            proof {
                assert(listing@.take(nl as int) =~= listing@);
                assert(dir_listings@.take(d + 1).drop_last() =~= dir_listings@.take(d as int));
                assert(dir_listings@.take(d + 1).last() == dir_listings@[d as int]);
            }
            d = d + 1;
        }
        proof {
            assert(dir_listings@.take(nd as int) =~= dir_listings@);
            assert(files_pairs(self.file@.take(0)) =~= Seq::<(Seq<char>, Seq<char>)>::empty());
            assert(pairs_view(out@) + files_pairs(self.file@.take(0)) =~= pairs_view(out@));
        }
        let ghost dirs_done = out@;
        let nf = self.file.len();
        let mut f: usize = 0;
        while f < nf
            invariant
                f <= nf == self.file@.len(),
                pairs_view(out@) == pairs_view(dirs_done) + files_pairs(self.file@.take(f as int)),
                forall|i: int| 0 <= i < f ==> ends_with_stl((#[trigger] self.file@[i])@),
            decreases nf - f,
        {
            if !ends_with_stl_exec(&self.file[f]) {
                return Err(LnasError::InvalidStlName);
            }
            let name = stem_exec(&self.file[f]);
            let path = self.file[f].clone();
            let ghost opre = out@;
            let ghost gpair = ((name@, path@));
            push_pair(&mut out, name, path);
            proof {
                assert(self.file@.take(f + 1).drop_last() =~= self.file@.take(f as int));
                assert(self.file@.take(f + 1).last() == self.file@[f as int]);
                assert(out@ =~= opre.push(((out@.last().0), (out@.last().1))));
                lemma_pairs_view_push(opre, out@.last());
                assert(out@.last().0@ == gpair.0 && out@.last().1@ == gpair.1);
                assert(files_pairs(self.file@.take(f + 1)) == files_pairs(
                    self.file@.take(f as int),
                ).push(gpair));
                assert(pairs_view(out@) =~= pairs_view(dirs_done) + files_pairs(
                    self.file@.take(f + 1),
                ));
            }
            f = f + 1;
        }
        proof {
            assert(self.file@.take(nf as int) =~= self.file@);
            assert(pairs_view(out@) == all_pairs(*self, dir_listings@));
        }
        // reject a repeated surface name
        let n = out.len();
        let mut i: usize = 0;
        while i < n
            invariant
                i <= n == out@.len(),
                pairs_view(out@) == all_pairs(*self, dir_listings@),
                forall|a: int, b: int|
                    0 <= a < b < out@.len() && a < i ==> (#[trigger] pairs_view(out@)[a]).0 != (
                    #[trigger] pairs_view(out@)[b]).0,
            decreases n - i,
        {
            let mut j: usize = i + 1;
            while j < n
                invariant
                    i < j <= n == out@.len(),
                    pairs_view(out@) == all_pairs(*self, dir_listings@),
                    forall|b: int|
                        i < b < j ==> (#[trigger] pairs_view(out@)[b]).0 != pairs_view(
                            out@,
                        )[i as int].0,
                decreases n - j,
            {
                if out[i].0.eq(&out[j].0) {
                    proof {
                        assert(pairs_view(out@)[i as int].0 == pairs_view(out@)[j as int].0);
                        assert(!pair_names_distinct(all_pairs(*self, dir_listings@))) by {
                            if pair_names_distinct(all_pairs(*self, dir_listings@)) {
                                assert((#[trigger] all_pairs(*self, dir_listings@)[i as int]).0
                                    != (#[trigger] all_pairs(*self, dir_listings@)[j as int]).0);
                            }
                        }
                    }
                    return Err(LnasError::DuplicateSurface);
                }
                j = j + 1;
            }
            i = i + 1;
        }
        Ok(out)
    }
}

} // verus!

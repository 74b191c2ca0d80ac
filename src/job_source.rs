//! The jobs of a batch: the subdirectories of the root that hold the build
//! descriptor, by name, in byte order. Reading the directory is the caller's
//! part; it hands over each entry's name and whether the entry qualifies.
use vstd::prelude::*;

verus! {

/// Byte-wise lexicographic order: `a` comes no later than `b`.
pub open spec fn lex_le(a: Seq<u8>, b: Seq<u8>) -> bool
    decreases a.len(),
{
    if a.len() == 0 {
        true
    } else if b.len() == 0 {
        false
    } else if a[0] != b[0] {
        a[0] < b[0]
    } else {
        lex_le(a.drop_first(), b.drop_first())
    }
}

/// `s` is in byte-wise lexicographic order.
pub open spec fn sorted_names(s: Seq<Seq<u8>>) -> bool {
    forall|i: int, j: int| 0 <= i < j < s.len() ==> lex_le(#[trigger] s[i], #[trigger] s[j])
}

/// The names held by `v`.
pub open spec fn names_view(v: Seq<Vec<u8>>) -> Seq<Seq<u8>> {
    v.map_values(|x: Vec<u8>| x@)
}

/// The names of the qualifying entries among `s`, in order.
pub open spec fn qualifying(s: Seq<(Vec<u8>, bool)>) -> Seq<Seq<u8>>
    decreases s.len(),
{
    if s.len() == 0 {
        Seq::empty()
    } else if s.last().1 {
        qualifying(s.drop_last()).push(s.last().0@)
    } else {
        qualifying(s.drop_last())
    }
}

/// Relies on `slice::sort`: a stable sort by `Ord`, which on `Vec<u8>` is
/// lexicographic; the result holds the same names, in order.
#[verifier::external_body]
fn sort_names(v: &mut Vec<Vec<u8>>)
    ensures
        names_view(final(v)@).to_multiset() == names_view(old(v)@).to_multiset(),
        sorted_names(names_view(final(v)@)),
{
    v.sort();
}

/// The jobs of a batch: the names of the qualifying entries among
/// `candidates` (each a name and whether it qualifies), each as often as it
/// occurs, in byte-wise lexicographic order.
pub fn select_jobs(candidates: Vec<(Vec<u8>, bool)>) -> (r: Vec<Vec<u8>>)
    ensures
        names_view(r@).to_multiset() == qualifying(candidates@).to_multiset(),
        sorted_names(names_view(r@)),
{
    let ghost all = candidates@;
    let mut rest = candidates;
    let mut out: Vec<Vec<u8>> = Vec::new();
    proof {
        broadcast use vstd::seq_lib::group_to_multiset_ensures;
        assert(names_view(out@) =~= Seq::<Seq<u8>>::empty());
    }
    while rest.len() > 0
        invariant
            names_view(out@).to_multiset().add(qualifying(rest@).to_multiset())
                == qualifying(all).to_multiset(),
        decreases rest@.len(),
    {
        let ghost before = rest@;
        let ghost out_before = out@;
        let (name, ok) = rest.pop().unwrap();
        proof {
            assert(rest@ == before.drop_last());
        }
        if ok {
            out.push(name);
            proof {
                broadcast use vstd::seq_lib::group_to_multiset_ensures;
                assert(names_view(out@) =~= names_view(out_before).push(before.last().0@));
                assert(names_view(out@).to_multiset() =~= names_view(out_before).to_multiset().insert(before.last().0@));
                assert(qualifying(before).to_multiset() =~= qualifying(rest@).to_multiset().insert(before.last().0@));
            }
        }
    }
    proof {
        broadcast use vstd::seq_lib::group_to_multiset_ensures;
        assert(qualifying(rest@) =~= Seq::<Seq<u8>>::empty());
        assert(names_view(out@).to_multiset().add(qualifying(rest@).to_multiset()) =~= names_view(out@).to_multiset());
    }
    sort_names(&mut out);
    out
}

} // verus!

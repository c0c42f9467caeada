use vstd::prelude::*;
use crate::face::{CardFace, faces_view, lemma_faces_view_push};

verus! {

/// How many faces one print page holds.
pub const PAGE_SIZE: usize = 9;

pub open spec fn page_count(n: nat) -> nat {
    (n + 8) / 9
}

/// Where page `i` of a run of `n` faces ends.
pub open spec fn page_end(n: nat, i: int) -> int {
    if 9 * i + 9 <= n {
        9 * i + 9
    } else {
        n as int
    }
}

/// A run of faces cut into consecutive pages of nine; the last may be shorter.
pub open spec fn pages_of<A>(s: Seq<A>) -> Seq<Seq<A>> {
    Seq::new(page_count(s.len()), |i: int| s.subrange(9 * i, page_end(s.len(), i)))
}

/// The image addresses on each page.
pub open spec fn pages_view(v: Seq<Vec<CardFace>>) -> Seq<Seq<Seq<char>>> {
    v.map_values(|p: Vec<CardFace>| faces_view(p@))
}

/// Groups faces into print pages of nine, in order.
pub fn group_every_9(card_faces: &mut Vec<CardFace>) -> (r: Vec<Vec<CardFace>>)
    ensures
        *final(card_faces) == *old(card_faces),
        pages_view(r@) == pages_of(faces_view(old(card_faces)@)),
{
    let n = card_faces.len();
    let ghost s = faces_view(card_faces@);
    let mut outer: Vec<Vec<CardFace>> = Vec::new();
    let mut start: usize = 0;
    while start < n
        invariant
            n == card_faces.len(),
            s == faces_view(card_faces@),
            start <= n,
            start < n ==> start == 9 * outer.len(),
            start >= n ==> outer.len() == page_count(n as nat),
            start < n ==> outer.len() < page_count(n as nat),
            forall|q: int| 0 <= q < outer.len() ==> #[trigger] pages_view(outer@)[q] == pages_of(s)[q],
        decreases n - start,
    {
        let end: usize = if n - start > PAGE_SIZE { start + PAGE_SIZE } else { n };
        let mut inner: Vec<CardFace> = Vec::new();
        let mut j: usize = start;
        while j < end
            invariant
                n == card_faces.len(),
                s == faces_view(card_faces@),
                start <= j <= end <= n,
                faces_view(inner@) == s.subrange(start as int, j as int),
            decreases end - j,
        {
            let ghost before = inner@;
            inner.push(card_faces[j].copied());
            proof {
                lemma_faces_view_push(before, inner@.last());
                assert(s.subrange(start as int, j + 1) =~= s.subrange(start as int, j as int).push(s[j as int]));
            }
            j = j + 1;
        }
        assert(start == 9 * outer.len());
        assert(end as int == page_end(n as nat, outer.len() as int));
        assert(end >= n ==> outer.len() + 1 == page_count(n as nat));
        assert(end < n ==> outer.len() + 1 < page_count(n as nat));
        let ghost old_outer = outer@;
        outer.push(inner);
        proof {
            assert forall|q: int| 0 <= q < outer.len() implies #[trigger] pages_view(outer@)[q] == pages_of(s)[q] by {
                if q < old_outer.len() {
                    assert(pages_view(outer@)[q] == pages_view(old_outer)[q]);
                }
            }
        }
        start = end;
    }
    assert(pages_view(outer@) =~= pages_of(s));
    outer
}

/// Paging keeps every face, in order: there are `ceil(N/9)` pages, each but
/// the last holds exactly nine faces, and the pages laid end to end give the
/// same run back.
pub proof fn lemma_pages_partition(s: Seq<Seq<char>>)
    ensures
        pages_of(s).len() == (s.len() + 8) / 9,
        forall|i: int| 0 <= i < pages_of(s).len() - 1 ==> (#[trigger] pages_of(s)[i]).len() == 9,
        pages_of(s).len() > 0 ==> 1 <= pages_of(s).last().len() <= 9,
        pages_of(s).flatten() == s,
    decreases s.len(),
{
    if s.len() > 9 {
        let rest = s.skip(9);
        lemma_pages_partition(rest);
        assert(pages_of(s) =~~= seq![s.take(9)] + pages_of(rest));
        assert((seq![s.take(9)] + pages_of(rest)).drop_first() =~= pages_of(rest));
        assert(pages_of(s).flatten() == s.take(9) + pages_of(rest).flatten());
        assert(s.take(9) + rest =~= s);
    } else if s.len() > 0 {
        assert(pages_of(s) =~~= seq![s]);
        assert(seq![s].drop_first() =~= Seq::<Seq<Seq<char>>>::empty());
        assert(seq![s].drop_first().flatten() == Seq::<Seq<char>>::empty());
        assert(seq![s].flatten() == s + Seq::<Seq<char>>::empty());
        assert(s + Seq::<Seq<char>>::empty() =~= s);
    } else {
        assert(pages_of(s) =~= Seq::<Seq<Seq<char>>>::empty());
    }
}

} // verus!

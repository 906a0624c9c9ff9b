use vstd::prelude::*;

verus! {

/// Number of entries one removal batch takes from an enumeration of `m`
/// entries when the random draw is `draw`: the draw capped by the
/// enumeration, and zero when the enumeration is empty.
pub open spec fn removal_take(m: nat, draw: nat) -> nat {
    if m == 0 {
        0
    } else if draw <= m {
        draw
    } else {
        m
    }
}

/// A batch never exceeds the draw's exclusive bound of twenty, nor the
/// enumeration itself.
pub proof fn lemma_removal_take_bounded(m: nat, draw: nat)
    requires
        1 <= draw < 20,
    ensures
        removal_take(m, draw) <= 20,
        removal_take(m, draw) <= m,
{
}

/// Each batch over a non-empty enumeration takes at least one entry, so the
/// remainder strictly shrinks.
pub proof fn lemma_removal_progress(m: nat, draw: nat)
    requires
        m > 0,
        1 <= draw,
    ensures
        removal_take(m, draw) >= 1,
        m - removal_take(m, draw) < m,
{
}

/// What remains of a non-regenerating enumeration of `m` entries after the
/// given sequence of draws, one batch per draw.
pub open spec fn remaining_after(m: nat, draws: Seq<nat>) -> nat
    decreases draws.len(),
{
    if draws.len() == 0 {
        m
    } else {
        remaining_after((m - removal_take(m, draws[0])) as nat, draws.skip(1))
    }
}

/// Repeated batches over a finite, non-regenerating enumeration converge to
/// zero: after at least as many draws as there were entries, nothing remains.
pub proof fn lemma_removal_converges(m: nat, draws: Seq<nat>)
    requires
        forall|i: int| 0 <= i < draws.len() ==> 1 <= #[trigger] draws[i] < 20,
        draws.len() >= m,
    ensures
        remaining_after(m, draws) == 0,
    decreases draws.len(),
{
    if draws.len() == 0 {
    } else {
        let taken = removal_take(m, draws[0]);
        let m2 = (m - taken) as nat;
        let rest = draws.skip(1);
        assert forall|i: int| 0 <= i < rest.len() implies 1 <= #[trigger] rest[i] < 20 by {
            assert(rest[i] == draws[i + 1]);
        }
        if m > 0 {
            lemma_removal_progress(m, draws[0]);
        }
        lemma_removal_converges(m2, rest);
    }
}

/// Selects the prefix of the (externally shuffled) enumeration that one
/// removal batch covers: `removal_take` entries, in order.
pub fn select_removal_batch(listing: &Vec<String>, draw: usize) -> (batch: Vec<String>)
    requires
        1 <= draw < 20,
    ensures
        batch@.len() == removal_take(listing@.len() as nat, draw as nat),
        batch@ == listing@.take(batch@.len() as int),
{
    let m = listing.len();
    let k: usize = if m == 0 {
        0
    } else if draw <= m {
        draw
    } else {
        m
    };
    let mut batch: Vec<String> = Vec::new();
    let mut i: usize = 0;
    while i < k
        invariant
            i <= k,
            k <= m,
            m == listing@.len(),
            batch@ == listing@.take(i as int),
        decreases k - i,
    {
        batch.push(listing[i].clone());
        proof {
            assert(listing@.take(i as int).push(listing@[i as int]) =~= listing@.take(
                i + 1 as int,
            ));
        }
        i = i + 1;
    }
    batch
}

/// Flattens the per-directory enumerations into one candidate listing, in
/// directory order. The enumeration itself is the embedder's concern; this
/// is the combination step it feeds.
pub open spec fn flattened(listings: Seq<Vec<String>>) -> Seq<String>
    decreases listings.len(),
{
    if listings.len() == 0 {
        Seq::empty()
    } else {
        flattened(listings.drop_last()) + listings.last()@
    }
}

/// Combines the per-directory listings into the flat candidate list that one
/// removal pass works over.
pub fn collect_sys_files(listings: &Vec<Vec<String>>) -> (all: Vec<String>)
    ensures
        all@ == flattened(listings@),
{
    let mut all: Vec<String> = Vec::new();
    let mut i: usize = 0;
    while i < listings.len()
        invariant
            i <= listings@.len(),
            all@ == flattened(listings@.take(i as int)),
        decreases listings@.len() - i,
    {
        let mut j: usize = 0;
        while j < listings[i].len()
            invariant
                i < listings@.len(),
                j <= listings@[i as int]@.len(),
                all@ == flattened(listings@.take(i as int)) + listings@[i as int]@.take(j as int),
            decreases listings@[i as int]@.len() - j,
        {
            all.push(listings[i][j].clone());
            proof {
                assert(listings@[i as int]@.take(j as int).push(listings@[i as int]@[j as int])
                    =~= listings@[i as int]@.take(j + 1 as int));
            }
            j = j + 1;
        }
        proof {
            assert(listings@.take(i + 1 as int).drop_last() =~= listings@.take(i as int));
            assert(listings@[i as int]@.take(listings@[i as int]@.len() as int) =~= listings@[
                i as int
            ]@);
            assert(listings@.take(i + 1 as int).last() == listings@[i as int]);
        }
        i = i + 1;
    }
    proof {
        assert(listings@.take(listings@.len() as int) =~= listings@);
    }
    all
}

} // verus!

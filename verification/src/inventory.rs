use vstd::prelude::*;

verus! {

/// Number of entries one recovery batch takes from an inventory of `m`
/// entries: at most five, never more than are present.
pub open spec fn decrypt_take(m: nat) -> nat {
    if m < 5 {
        m
    } else {
        5
    }
}

/// Ordered collection of candidate file paths. It is created once from a scan
/// and only ever shrinks, one bounded batch at a time.
pub struct Inventory {
    files: Vec<String>,
}

impl Inventory {
    /// The paths currently held, in order.
    pub closed spec fn entries(&self) -> Seq<String> {
        self.files@
    }

    pub fn new(files: Vec<String>) -> (inv: Inventory)
        ensures
            inv.entries() == files@,
    {
        Inventory { files }
    }

    pub fn len(&self) -> (n: usize)
        ensures
            n == self.entries().len(),
    {
        self.files.len()
    }

    pub fn is_empty(&self) -> (b: bool)
        ensures
            b == (self.entries().len() == 0),
    {
        self.files.len() == 0
    }

    /// The path at position `i`.
    pub fn entry_at(&self, i: usize) -> (p: String)
        requires
            i < self.entries().len(),
        ensures
            p == self.entries()[i as int],
    {
        self.files[i].clone()
    }

    /// The order in which the one-time bulk pass visits the inventory: every
    /// entry exactly once, in inventory order. The shared borrow leaves the
    /// entries themselves untouched.
    pub fn bulk_pass_order(&self) -> (order: Vec<String>)
        ensures
            order@ == self.entries(),
    {
        let mut order: Vec<String> = Vec::new();
        let mut i: usize = 0;
        while i < self.files.len()
            invariant
                i <= self.files@.len(),
                order@ == self.files@.take(i as int),
            decreases self.files@.len() - i,
        {
            order.push(self.files[i].clone());
            proof {
                assert(self.files@.take(i as int).push(self.files@[i as int]) =~= self.files@.take(
                    i + 1 as int,
                ));
            }
            i = i + 1;
        }
        proof {
            assert(self.files@.take(self.files@.len() as int) =~= self.files@);
        }
        order
    }

    /// Removes and returns the batch that one accepted code entry processes:
    /// the first `decrypt_take` entries of the current order. On an empty
    /// inventory this is a no-op returning an empty batch.
    pub fn select_decrypt_batch(&mut self) -> (batch: Vec<String>)
        ensures
            batch@.len() == decrypt_take(old(self).entries().len()),
            batch@ == old(self).entries().take(batch@.len() as int),
            final(self).entries() == old(self).entries().skip(batch@.len() as int),
            final(self).entries().len() == old(self).entries().len() - decrypt_take(
                old(self).entries().len(),
            ),
            old(self).entries().len() == 0 ==> final(self).entries() == old(self).entries()
                && batch@.len() == 0,
    {
        let ghost orig = self.files@;
        let m = self.files.len();
        let k: usize = if m < 5 {
            m
        } else {
            5
        };
        let mut batch: Vec<String> = Vec::new();
        let mut i: usize = 0;
        while i < k
            invariant
                i <= k,
                k <= m,
                m == orig.len(),
                self.files@ == orig,
                batch@ == orig.take(i as int),
            decreases k - i,
        {
            batch.push(self.files[i].clone());
            proof {
                assert(orig.take(i as int).push(orig[i as int]) =~= orig.take(i + 1 as int));
            }
            i = i + 1;
        }
        let mut rest: Vec<String> = Vec::new();
        let mut j: usize = k;
        while j < m
            invariant
                k <= j <= m,
                m == orig.len(),
                self.files@ == orig,
                rest@ == orig.subrange(k as int, j as int),
            decreases m - j,
        {
            rest.push(self.files[j].clone());
            proof {
                assert(orig.subrange(k as int, j as int).push(orig[j as int]) =~= orig.subrange(
                    k as int,
                    j + 1 as int,
                ));
            }
            j = j + 1;
        }
        self.files = rest;
        proof {
            assert(orig.subrange(k as int, m as int) =~= orig.skip(k as int));
            assert(orig.skip(0) =~= orig);
        }
        batch
    }
}

} // verus!

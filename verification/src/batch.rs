//! Gathering a stream of values into batches, as the first processing layer
//! does before it hands them to the second.
//!
//! Values are added one at a time; as soon as the batch holds at least the
//! batch size (which may change between values), the whole batch is handed
//! out and a fresh empty one is started.
use vstd::prelude::*;

verus! {

broadcast use vstd::seq_lib::group_seq_properties;

/// One step: the batch handed out, if any, and the batch kept afterwards.
pub open spec fn batch_step(pending: Seq<u64>, data: u64, batch_size: nat) -> (Option<Seq<u64>>, Seq<u64>) {
    let grown = pending.push(data);
    if grown.len() >= batch_size {
        (Some(grown), Seq::empty())
    } else {
        (None, grown)
    }
}

/// The batches handed out and the batch kept after a run of values, the
/// `i`-th value checked against the `i`-th batch size.
pub open spec fn batch_run(pending: Seq<u64>, data: Seq<u64>, sizes: Seq<nat>) -> (Seq<Seq<u64>>, Seq<u64>)
    decreases data.len(),
{
    if data.len() == 0 {
        (Seq::empty(), pending)
    } else {
        let (full, kept) = batch_run(pending, data.drop_last(), sizes.drop_last());
        let (out, next) = batch_step(kept, data.last(), sizes[data.len() - 1]);
        match out {
            Some(b) => (full.push(b), next),
            None => (full, next),
        }
    }
}

/// The batch being filled.
pub struct Batcher {
    batch: Vec<u64>,
}

impl View for Batcher {
    type V = Seq<u64>;

    closed spec fn view(&self) -> Seq<u64> {
        self.batch@
    }
}

impl Batcher {
    /// An empty batch, with room for `batch_size` values.
    pub fn new(batch_size: usize) -> (b: Batcher)
        ensures
            b@ == Seq::<u64>::empty(),
    {
        Batcher { batch: Vec::with_capacity(batch_size) }
    }

    /// The values in the batch, in the order they came.
    pub fn pending(&self) -> (s: &[u64])
        ensures
            s@ == self@,
    {
        self.batch.as_slice()
    }

    /// Adds `data` to the batch. When the batch then holds at least
    /// `batch_size` values it is returned, whole and in order, and an empty
    /// batch with room for `batch_size` values takes its place.
    pub fn push(&mut self, data: u64, batch_size: usize) -> (full: Option<Vec<u64>>)
        ensures
            (match full {
                Some(b) => Some(b@),
                None => None::<Seq<u64>>,
            }, final(self)@) == batch_step(old(self)@, data, batch_size as nat),
    {
        self.batch.push(data);
        if self.batch.len() >= batch_size {
            let mut full = Vec::with_capacity(batch_size);
            std::mem::swap(&mut full, &mut self.batch);
            Some(full)
        } else {
            None
        }
    }
}

/// Nothing is lost, duplicated or reordered: the batches handed out, followed
/// by the batch still being filled, are the values that were pending followed
/// by every value added, in order; and each batch handed out holds at least
/// one of the batch sizes in force during the run.
pub proof fn law_batches_keep_every_value(pending: Seq<u64>, data: Seq<u64>, sizes: Seq<nat>)
    requires
        sizes.len() == data.len(),
    ensures
        batch_run(pending, data, sizes).0.flatten() + batch_run(pending, data, sizes).1 == pending + data,
        forall|j: int|
            0 <= j < batch_run(pending, data, sizes).0.len() ==> exists|k: int|
                0 <= k < data.len() && (#[trigger] batch_run(pending, data, sizes).0[j]).len() >= #[trigger] sizes[k],
    decreases data.len(),
{
    if data.len() > 0 {
        let n = data.len() - 1;
        law_batches_keep_every_value(pending, data.drop_last(), sizes.drop_last());
        let (full, kept) = batch_run(pending, data.drop_last(), sizes.drop_last());
        let grown = kept.push(data.last());
        let out = batch_run(pending, data, sizes).0;
        if grown.len() >= sizes[n] {
            full.lemma_flatten_push(grown);
            assert(out == full.push(grown));
        } else {
            assert(out == full);
        }
        assert forall|j: int| 0 <= j < out.len() implies exists|k: int|
            0 <= k < data.len() && (#[trigger] out[j]).len() >= #[trigger] sizes[k] by {
            if j < full.len() {
                let k = choose|k: int| 0 <= k < data.drop_last().len() && (#[trigger] full[j]).len() >= #[trigger] sizes.drop_last()[k];
                assert(out[j] == full[j]);
                assert(sizes.drop_last()[k] == sizes[k]);
            } else {
                assert(out[j] == grown);
                assert(out[j].len() >= sizes[n]);
            }
        }
        assert(data =~= data.drop_last().push(data.last()));
        assert(full.flatten() + grown =~= (full.flatten() + kept).push(data.last()));
    }
}

/// With one batch size `k` of at least one throughout, starting from an empty
/// batch, every batch handed out holds exactly `k` values, the batch being
/// filled holds fewer than `k`, and the batches handed out are the first
/// values in order.
pub proof fn law_fixed_size_batches(data: Seq<u64>, k: nat)
    requires
        k >= 1,
    ensures
        ({
            let (full, kept) = batch_run(Seq::empty(), data, Seq::new(data.len(), |i: int| k));
            &&& forall|j: int| 0 <= j < full.len() ==> (#[trigger] full[j]).len() == k
            &&& kept.len() < k
            &&& full.len() == data.len() / k
            &&& full.flatten() + kept == data
        }),
    decreases data.len(),
{
    let sizes = Seq::new(data.len(), |i: int| k);
    law_batches_keep_every_value(Seq::empty(), data, sizes);
    assert(Seq::<u64>::empty() + data =~= data);
    if data.len() > 0 {
        let prefix = data.drop_last();
        law_fixed_size_batches(prefix, k);
        assert(sizes.drop_last() =~= Seq::new(prefix.len(), |i: int| k));
        let (full, kept) = batch_run(Seq::empty(), prefix, sizes.drop_last());
        let grown = kept.push(data.last());
        assert(sizes[data.len() - 1] == k);
        if grown.len() >= k {
            assert(grown.len() == k);
            assert forall|j: int| 0 <= j < full.push(grown).len() implies (#[trigger] full.push(grown)[j]).len() == k by {
                if j < full.len() {
                    assert(full.push(grown)[j] == full[j]);
                }
            }
            assert(prefix.len() == full.len() * k + kept.len()) by {
                lemma_flatten_uniform_len(full, k);
            }
            assert(data.len() == (full.len() + 1) * k) by (nonlinear_arith)
                requires data.len() == prefix.len() + 1, prefix.len() == full.len() * k + kept.len(), kept.len() + 1 == k;
            assert(data.len() / k == full.len() + 1) by (nonlinear_arith)
                requires data.len() == (full.len() + 1) * k, k >= 1;
        } else {
            assert(prefix.len() == full.len() * k + kept.len()) by {
                lemma_flatten_uniform_len(full, k);
            }
            assert(data.len() / k == full.len()) by (nonlinear_arith)
                requires data.len() == full.len() * k + kept.len() + 1, kept.len() + 1 < k, k >= 1;
        }
    }
}

/// A sequence of `m` batches of `k` values flattens to `m * k` values.
proof fn lemma_flatten_uniform_len(batches: Seq<Seq<u64>>, k: nat)
    requires
        forall|j: int| 0 <= j < batches.len() ==> (#[trigger] batches[j]).len() == k,
    ensures
        batches.flatten().len() == batches.len() * k,
    decreases batches.len(),
{
    if batches.len() > 0 {
        let rest = batches.drop_last();
        assert forall|j: int| 0 <= j < rest.len() implies (#[trigger] rest[j]).len() == k by {
            assert(rest[j] == batches[j]);
        }
        lemma_flatten_uniform_len(rest, k);
        assert(batches =~= rest.push(batches.last()));
        rest.lemma_flatten_push(batches.last());
        assert(batches.len() * k == rest.len() * k + k) by (nonlinear_arith)
            requires batches.len() == rest.len() + 1;
        assert(batches.flatten().len() == rest.flatten().len() + batches.last().len());
        assert(batches.last().len() == k);
    } else {
        assert(batches.len() * k == 0) by (nonlinear_arith)
            requires batches.len() == 0;
    }
}

} // verus!

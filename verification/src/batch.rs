//! Batched metadata fetching: which items need details, how they are cut
//! into batches (a small first batch for quick display, then larger ones),
//! the per-run accounting and the verification verdict.
use vstd::prelude::*;
use crate::text::{concat, decimal_digits, usize_to_string};

verus! {

/// Configuration for batch processing operations on the media store.
#[derive(Debug, Clone, Copy, PartialEq, Eq, Structural)]
pub struct BatchConfig {
    /// Whether this is an initial load from the server (skip sorting).
    pub is_initial_load: bool,
    /// Whether to preserve insertion order (for pre-sorted data).
    pub preserve_order: bool,
    /// Maximum items to process in a single batch.
    pub max_batch_size: usize,
    /// Whether to run on a background thread.
    pub use_background_thread: bool,
}

impl Default for BatchConfig {
    fn default() -> (c: Self)
        ensures
            !c.is_initial_load,
            !c.preserve_order,
            c.max_batch_size == 1000,
            c.use_background_thread,
    {
        BatchConfig { is_initial_load: false, preserve_order: false, max_batch_size: 1000, use_background_thread: true }
    }
}

/// Identity of a media item, by kind and UUID (as a 128-bit integer).
#[derive(Debug, Clone, Copy, PartialEq, Eq, Structural, Hash)]
pub enum MediaId {
    Movie(u128),
    Series(u128),
    Season(u128),
    Episode(u128),
}

/// What the batch logic reads of a media reference: its id and whether its
/// details are still only an endpoint to fetch.
#[derive(Debug, Clone, Copy, PartialEq, Eq, Structural)]
pub struct MediaRefSummary {
    pub id: MediaId,
    pub needs_details: bool,
}

/// Movies and series get metadata fetched; seasons and episodes do not.
pub open spec fn fetchable(id: MediaId) -> bool {
    id is Movie || id is Series
}

/// The ids, in order, of the movies and series that still need details.
pub open spec fn needing(refs: Seq<MediaRefSummary>) -> Seq<MediaId>
    decreases refs.len(),
{
    if refs.len() == 0 {
        Seq::empty()
    } else {
        let rest = needing(refs.drop_last());
        let r = refs.last();
        if fetchable(r.id) && r.needs_details {
            rest.push(r.id)
        } else {
            rest
        }
    }
}

/// Ids of the movies and series among `refs` whose details must be fetched.
pub fn items_needing_metadata(refs: &Vec<MediaRefSummary>) -> (ids: Vec<MediaId>)
    ensures
        ids@ == needing(refs@),
{
    let mut ids: Vec<MediaId> = Vec::new();
    let mut i: usize = 0;
    while i < refs.len()
        invariant
            i <= refs@.len(),
            ids@ == needing(refs@.take(i as int)),
        decreases refs@.len() - i,
    {
        let r = refs[i];
        proof {
            assert(refs@.take(i + 1).drop_last() == refs@.take(i as int));
        }
        if (matches!(r.id, MediaId::Movie(_)) || matches!(r.id, MediaId::Series(_))) && r.needs_details {
            ids.push(r.id);
        }
        i += 1;
    }
    assert(refs@.take(refs@.len() as int) == refs@);
    ids
}

/// Size of the first batch, kept small for a quick first display.
pub const FIRST_BATCH_SIZE: usize = 30;

/// Size of every later batch.
pub const BATCH_SIZE: usize = 100;

pub open spec fn min_int(a: int, b: int) -> int {
    if a < b { a } else { b }
}

/// Batches of up to `BATCH_SIZE` items covering `s` from `start` on.
pub open spec fn chunks_from(s: Seq<MediaId>, start: int) -> Seq<Seq<MediaId>>
    decreases s.len() - start,
{
    if start >= s.len() || start < 0 {
        Seq::empty()
    } else {
        let end = min_int(start + BATCH_SIZE, s.len() as int);
        seq![s.subrange(start, end)] + chunks_from(s, end)
    }
}

/// The batches of `s`: the first `FIRST_BATCH_SIZE` items, then runs of
/// `BATCH_SIZE`, the last possibly shorter.
pub open spec fn batches_of(s: Seq<MediaId>) -> Seq<Seq<MediaId>> {
    if s.len() == 0 {
        Seq::empty()
    } else {
        let first = min_int(FIRST_BATCH_SIZE as int, s.len() as int);
        seq![s.subrange(0, first)] + chunks_from(s, first)
    }
}

/// All batches joined in order.
pub open spec fn concat_all(bs: Seq<Seq<MediaId>>) -> Seq<MediaId>
    decreases bs.len(),
{
    if bs.len() == 0 {
        Seq::empty()
    } else {
        bs[0] + concat_all(bs.drop_first())
    }
}

proof fn lemma_chunks_from(s: Seq<MediaId>, start: int)
    requires
        0 <= start <= s.len(),
    ensures
        concat_all(chunks_from(s, start)) == s.skip(start),
        forall|k: int| 0 <= k < chunks_from(s, start).len() ==>
            0 < #[trigger] chunks_from(s, start)[k].len() <= BATCH_SIZE,
    decreases s.len() - start,
{
    if start < s.len() {
        let end = min_int(start + BATCH_SIZE, s.len() as int);
        let c = chunks_from(s, start);
        lemma_chunks_from(s, end);
        assert(c.drop_first() == chunks_from(s, end));
        assert(s.skip(start) == s.subrange(start, end) + s.skip(end));
        assert forall|k: int| 0 <= k < c.len() implies 0 < #[trigger] c[k].len() <= BATCH_SIZE by {
            if k > 0 {
                assert(c[k] == chunks_from(s, end)[k - 1]);
            }
        }
    } else {
        assert(s.skip(start) == Seq::<MediaId>::empty());
    }
}

/// The batches of a sequence join back to it; every batch is non-empty,
/// the first holds at most `FIRST_BATCH_SIZE` items and every later one at
/// most `BATCH_SIZE`.
pub proof fn lemma_batches_partition(s: Seq<MediaId>)
    ensures
        concat_all(batches_of(s)) == s,
        forall|k: int| 0 <= k < batches_of(s).len() ==> #[trigger] batches_of(s)[k].len() > 0,
        batches_of(s).len() > 0 ==> batches_of(s)[0].len() <= FIRST_BATCH_SIZE,
        forall|k: int| 1 <= k < batches_of(s).len() ==> #[trigger] batches_of(s)[k].len() <= BATCH_SIZE,
{
    if s.len() > 0 {
        let first = min_int(FIRST_BATCH_SIZE as int, s.len() as int);
        let b = batches_of(s);
        lemma_chunks_from(s, first);
        assert(b.drop_first() == chunks_from(s, first));
        assert(s == s.subrange(0, first) + s.skip(first));
        assert forall|k: int| 1 <= k < b.len() implies #[trigger] b[k].len() <= BATCH_SIZE by {
            assert(b[k] == chunks_from(s, first)[k - 1]);
        }
        assert forall|k: int| 0 <= k < b.len() implies #[trigger] b[k].len() > 0 by {
            if k > 0 {
                assert(b[k] == chunks_from(s, first)[k - 1]);
            }
        }
    }
}

/// The views of a list of batches.
pub open spec fn batches_view(v: Seq<Vec<MediaId>>) -> Seq<Seq<MediaId>> {
    v.map_values(|b: Vec<MediaId>| b@)
}

fn copy_ids(s: &Vec<MediaId>, from: usize, to: usize) -> (r: Vec<MediaId>)
    requires
        from <= to <= s@.len(),
    ensures
        r@ == s@.subrange(from as int, to as int),
{
    let mut r: Vec<MediaId> = Vec::new();
    let mut k = from;
    while k < to
        invariant
            from <= k <= to,
            to <= s@.len(),
            r@ == s@.subrange(from as int, k as int),
        decreases to - k,
    {
        r.push(s[k]);
        proof {
            assert(s@.subrange(from as int, k + 1) == s@.subrange(from as int, k as int).push(s@[k as int]));
        }
        k += 1;
    }
    r
}

/// Cut ids into batches: first up to `FIRST_BATCH_SIZE`, then `BATCH_SIZE` each.
pub fn create_batches(media_ids: &Vec<MediaId>) -> (batches: Vec<Vec<MediaId>>)
    ensures
        batches_view(batches@) == batches_of(media_ids@),
{
    let n = media_ids.len();
    let mut batches: Vec<Vec<MediaId>> = Vec::new();
    if n == 0 {
        proof {
            assert(batches_view(batches@) =~= Seq::<Seq<MediaId>>::empty());
        }
        return batches;
    }
    let first: usize = if n < FIRST_BATCH_SIZE { n } else { FIRST_BATCH_SIZE };
    batches.push(copy_ids(media_ids, 0, first));
    proof {
        assert(batches_view(batches@) + chunks_from(media_ids@, first as int) =~= batches_of(media_ids@));
    }
    let mut start = first;
    while start < n
        invariant
            n == media_ids@.len(),
            0 < start <= n,
            batches_view(batches@) + chunks_from(media_ids@, start as int) == batches_of(media_ids@),
        decreases n - start,
    {
        let end: usize = if n - start < BATCH_SIZE { n } else { start + BATCH_SIZE };
        let ghost before = batches_view(batches@);
        let chunk = copy_ids(media_ids, start, end);
        batches.push(chunk);
        proof {
            let c = chunks_from(media_ids@, start as int);
            assert(c == seq![media_ids@.subrange(start as int, end as int)] + chunks_from(media_ids@, end as int));
            assert(batches_view(batches@) =~= before.push(media_ids@.subrange(start as int, end as int)));
            assert(batches_view(batches@) + chunks_from(media_ids@, end as int) =~= before + c);
        }
        start = end;
    }
    proof {
        assert(chunks_from(media_ids@, start as int) == Seq::<Seq<MediaId>>::empty());
        assert(batches_view(batches@) + Seq::<Seq<MediaId>>::empty() =~= batches_view(batches@));
    }
    batches
}

/// Result of a batch metadata fetch run with its metrics.
#[derive(Debug, Clone)]
pub struct BatchFetchResult {
    /// Number of items that initially needed metadata.
    pub items_needing_metadata: usize,
    /// Number of items that came back with full metadata.
    pub items_successfully_fetched: usize,
    /// Number of items that failed to get metadata.
    pub items_failed: usize,
    /// Total time spent on the run, in milliseconds.
    pub fetch_duration_ms: u64,
    /// Whether verification passed.
    pub verification_passed: bool,
    /// Number of batches processed.
    pub batches_processed: usize,
    /// Size of each batch, in order.
    pub batch_sizes: Vec<usize>,
    /// Error messages encountered.
    pub errors: Vec<String>,
}

/// The batch sizes of a list of batches.
pub open spec fn sizes_of(bs: Seq<Seq<MediaId>>) -> Seq<usize> {
    bs.map_values(|b: Seq<MediaId>| b.len() as usize)
}

impl BatchFetchResult {
    /// Whether the run was completely successful: verified, nothing failed,
    /// and every item that needed metadata got it.
    pub fn is_fully_successful(&self) -> (b: bool)
        ensures
            b == (self.verification_passed && self.items_failed == 0
                && self.items_successfully_fetched == self.items_needing_metadata),
    {
        self.verification_passed && self.items_failed == 0
            && self.items_successfully_fetched == self.items_needing_metadata
    }

    /// Start a run over `refs`: the ids that need metadata cut into batches,
    /// and a result recording how many and how they were cut. With nothing
    /// to fetch the run is already verified.
    pub fn start(refs: &Vec<MediaRefSummary>) -> (out: (BatchFetchResult, Vec<Vec<MediaId>>))
        ensures
            batches_view(out.1@) == batches_of(needing(refs@)),
            out.0.items_needing_metadata == needing(refs@).len(),
            out.0.items_successfully_fetched == 0,
            out.0.items_failed == 0,
            out.0.fetch_duration_ms == 0,
            out.0.verification_passed == (needing(refs@).len() == 0),
            out.0.batches_processed == out.1@.len(),
            out.0.batch_sizes@ == sizes_of(batches_of(needing(refs@))),
            out.0.errors@.len() == 0,
    {
        let ids = items_needing_metadata(refs);
        let batches = create_batches(&ids);
        let mut sizes: Vec<usize> = Vec::new();
        let mut k: usize = 0;
        while k < batches.len()
            invariant
                k <= batches@.len(),
                sizes@ == sizes_of(batches_view(batches@)).take(k as int),
            decreases batches@.len() - k,
        {
            sizes.push(batches[k].len());
            proof {
                assert(sizes@ =~= sizes_of(batches_view(batches@)).take(k + 1));
            }
            k += 1;
        }
        proof {
            assert(sizes_of(batches_view(batches@)).take(batches@.len() as int) =~= sizes_of(batches_view(batches@)));
        }
        let result = BatchFetchResult {
            items_needing_metadata: ids.len(),
            items_successfully_fetched: 0,
            items_failed: 0,
            fetch_duration_ms: 0,
            verification_passed: ids.len() == 0,
            batches_processed: batches.len(),
            batch_sizes: sizes,
            errors: Vec::new(),
        };
        (result, batches)
    }

    /// Account for a batch the server answered: `fetched` items came back and
    /// each error message names one item that failed.
    pub fn record_batch_response(&mut self, fetched: usize, error_messages: Vec<String>)
        requires
            old(self).items_successfully_fetched + fetched <= usize::MAX,
            old(self).items_failed + error_messages@.len() <= usize::MAX,
        ensures
            final(self).items_successfully_fetched == old(self).items_successfully_fetched + fetched,
            final(self).items_failed == old(self).items_failed + error_messages@.len(),
            final(self).errors@ == old(self).errors@ + error_messages@,
            final(self).items_needing_metadata == old(self).items_needing_metadata,
            final(self).verification_passed == old(self).verification_passed,
            final(self).batches_processed == old(self).batches_processed,
            final(self).batch_sizes@ == old(self).batch_sizes@,
            final(self).fetch_duration_ms == old(self).fetch_duration_ms,
    {
        self.items_successfully_fetched = self.items_successfully_fetched + fetched;
        self.items_failed = self.items_failed + error_messages.len();
        let mut msgs = error_messages;
        self.errors.append(&mut msgs);
    }

    /// Account for a batch whose request failed: all its items count as failed.
    pub fn record_batch_failure(&mut self, batch_size: usize, message: String)
        requires
            old(self).items_failed + batch_size <= usize::MAX,
        ensures
            final(self).items_failed == old(self).items_failed + batch_size,
            final(self).errors@ == old(self).errors@.push(message),
            final(self).items_successfully_fetched == old(self).items_successfully_fetched,
            final(self).items_needing_metadata == old(self).items_needing_metadata,
            final(self).verification_passed == old(self).verification_passed,
            final(self).batches_processed == old(self).batches_processed,
            final(self).batch_sizes@ == old(self).batch_sizes@,
            final(self).fetch_duration_ms == old(self).fetch_duration_ms,
    {
        self.items_failed = self.items_failed + batch_size;
        self.errors.push(message);
    }

    /// Record the verification verdict (with its message when it failed) and
    /// the run's duration.
    pub fn record_verification(&mut self, verdict: Result<(), VerificationFailure>, message: String, duration_ms: u64)
        ensures
            final(self).verification_passed == (verdict is Ok),
            final(self).errors@ == if verdict is Ok { old(self).errors@ } else { old(self).errors@.push(message) },
            final(self).fetch_duration_ms == duration_ms,
            final(self).items_failed == old(self).items_failed,
            final(self).items_successfully_fetched == old(self).items_successfully_fetched,
            final(self).items_needing_metadata == old(self).items_needing_metadata,
            final(self).batches_processed == old(self).batches_processed,
            final(self).batch_sizes@ == old(self).batch_sizes@,
    {
        match verdict {
            Ok(()) => {
                self.verification_passed = true;
            },
            Err(_) => {
                self.verification_passed = false;
                self.errors.push(message);
            },
        }
        self.fetch_duration_ms = duration_ms;
    }
}

/// Why verification of a run failed.
#[derive(Debug, Clone, Copy, PartialEq, Eq, Structural)]
pub enum VerificationFailure {
    /// There was nothing to verify.
    NoItems,
    /// More than 5% still have only an endpoint, and more than 0.1% are missing.
    EndpointsAndMissing { still_endpoints: usize, not_found: usize, total: usize },
    /// More than 5% of the items still have only an endpoint.
    Endpoints { still_endpoints: usize, total: usize },
    /// More than 0.1% of the items are missing from the store.
    Missing { not_found: usize, total: usize },
}

/// The error a failed verification leaves in a run's errors. `rate` is the
/// share of items still with only an endpoint, as the caller writes it (a
/// floating-point value).
pub open spec fn failure_text(f: VerificationFailure, rate: Seq<char>) -> Seq<char> {
    let p = "Verification failed: "@;
    match f {
        VerificationFailure::NoItems => p + "No items to verify"@,
        VerificationFailure::EndpointsAndMissing { still_endpoints, not_found, total } => p + p
            + decimal_digits(still_endpoints as nat) + " out of "@ + decimal_digits(total as nat)
            + " items still have Endpoint, exceeding the 5% threshold at "@ + rate + ", additionally "@
            + decimal_digits(not_found as nat) + " items not found in MediaStore"@,
        VerificationFailure::Endpoints { still_endpoints, total } => p + p
            + decimal_digits(still_endpoints as nat) + " out of "@ + decimal_digits(total as nat)
            + " items Endpoint, exceeding the 5% threshold at "@ + rate,
        VerificationFailure::Missing { not_found, total } => p + p
            + decimal_digits(not_found as nat) + " out of "@ + decimal_digits(total as nat)
            + " items not found in MediaStore"@,
    }
}

impl VerificationFailure {
    /// The error this failure leaves in a run's errors (see `failure_text`).
    pub fn message(&self, rate: &str) -> (r: String)
        ensures
            r@ == failure_text(*self, rate@),
    {
        let p = "Verification failed: ";
        match *self {
            VerificationFailure::NoItems => concat(p, "No items to verify"),
            VerificationFailure::EndpointsAndMissing { still_endpoints, not_found, total } => {
                let mut m = concat(p, p);
                m = concat(m.as_str(), usize_to_string(still_endpoints).as_str());
                m = concat(m.as_str(), " out of ");
                m = concat(m.as_str(), usize_to_string(total).as_str());
                m = concat(m.as_str(), " items still have Endpoint, exceeding the 5% threshold at ");
                m = concat(m.as_str(), rate);
                m = concat(m.as_str(), ", additionally ");
                m = concat(m.as_str(), usize_to_string(not_found).as_str());
                m = concat(m.as_str(), " items not found in MediaStore");
                proof {
                    assert(m@ =~= failure_text(*self, rate@));
                }
                m
            },
            VerificationFailure::Endpoints { still_endpoints, total } => {
                let mut m = concat(p, p);
                m = concat(m.as_str(), usize_to_string(still_endpoints).as_str());
                m = concat(m.as_str(), " out of ");
                m = concat(m.as_str(), usize_to_string(total).as_str());
                m = concat(m.as_str(), " items Endpoint, exceeding the 5% threshold at ");
                m = concat(m.as_str(), rate);
                proof {
                    assert(m@ =~= failure_text(*self, rate@));
                }
                m
            },
            VerificationFailure::Missing { not_found, total } => {
                let mut m = concat(p, p);
                m = concat(m.as_str(), usize_to_string(not_found).as_str());
                m = concat(m.as_str(), " out of ");
                m = concat(m.as_str(), usize_to_string(total).as_str());
                m = concat(m.as_str(), " items not found in MediaStore");
                proof {
                    assert(m@ =~= failure_text(*self, rate@));
                }
                m
            },
        }
    }
}

/// The error a batch whose request failed leaves in a run's errors.
pub fn batch_failure_message(index: usize, error: &str) -> (r: String)
    ensures
        r@ == "Batch "@ + decimal_digits(index as nat) + " failed: "@ + error@,
{
    let mut m = concat("Batch ", usize_to_string(index).as_str());
    m = concat(m.as_str(), " failed: ");
    m = concat(m.as_str(), error);
    proof {
        assert(m@ =~= "Batch "@ + decimal_digits(index as nat) + " failed: "@ + error@);
    }
    m
}

/// How many looked-up items still need details (`Some(true)`).
pub open spec fn count_still(s: Seq<Option<bool>>) -> nat
    decreases s.len(),
{
    if s.len() == 0 {
        0
    } else {
        count_still(s.drop_last()) + if s.last() == Some(true) { 1nat } else { 0nat }
    }
}

/// How many looked-up items were not found (`None`).
pub open spec fn count_missing(s: Seq<Option<bool>>) -> nat
    decreases s.len(),
{
    if s.len() == 0 {
        0
    } else {
        count_missing(s.drop_last()) + if s.last() is None { 1nat } else { 0nat }
    }
}

proof fn lemma_counts_bounded(s: Seq<Option<bool>>)
    ensures
        count_still(s) <= s.len(),
        count_missing(s) <= s.len(),
    decreases s.len(),
{
    if s.len() > 0 {
        lemma_counts_bounded(s.drop_last());
    }
}

/// The verdict on a run from what the store holds for each item that needed
/// metadata: `None` when not found, else whether it still needs details.
/// More than 5% still needing details, or more than 0.1% not found, fails.
pub open spec fn verdict(s: Seq<Option<bool>>) -> Result<(), VerificationFailure> {
    let n = s.len();
    let still = count_still(s);
    let missing = count_missing(s);
    let too_many_still = 20 * still > n;
    let too_many_missing = 1000 * missing > n;
    if n == 0 {
        Err(VerificationFailure::NoItems)
    } else if too_many_still && too_many_missing {
        Err(VerificationFailure::EndpointsAndMissing { still_endpoints: still as usize, not_found: missing as usize, total: n as usize })
    } else if too_many_still {
        Err(VerificationFailure::Endpoints { still_endpoints: still as usize, total: n as usize })
    } else if too_many_missing {
        Err(VerificationFailure::Missing { not_found: missing as usize, total: n as usize })
    } else {
        Ok(())
    }
}

/// Verify a run from the store's answers for each item that needed metadata.
pub fn verify_metadata_fetch(lookups: &Vec<Option<bool>>) -> (r: Result<(), VerificationFailure>)
    ensures
        r == verdict(lookups@),
{
    let n = lookups.len();
    if n == 0 {
        return Err(VerificationFailure::NoItems);
    }
    let mut still: usize = 0;
    let mut missing: usize = 0;
    let mut i: usize = 0;
    while i < n
        invariant
            n == lookups@.len(),
            i <= n,
            still == count_still(lookups@.take(i as int)),
            missing == count_missing(lookups@.take(i as int)),
        decreases n - i,
    {
        proof {
            assert(lookups@.take(i + 1).drop_last() == lookups@.take(i as int));
            lemma_counts_bounded(lookups@.take(i as int));
        }
        match lookups[i] {
            None => {
                missing = missing + 1;
            },
            Some(true) => {
                still = still + 1;
            },
            Some(false) => {},
        }
        i += 1;
    }
    proof {
        assert(lookups@.take(n as int) == lookups@);
    }
    let too_many_still = 20 * (still as u128) > n as u128;
    let too_many_missing = 1000 * (missing as u128) > n as u128;
    if too_many_still && too_many_missing {
        Err(VerificationFailure::EndpointsAndMissing { still_endpoints: still, not_found: missing, total: n })
    } else if too_many_still {
        Err(VerificationFailure::Endpoints { still_endpoints: still, total: n })
    } else if too_many_missing {
        Err(VerificationFailure::Missing { not_found: missing, total: n })
    } else {
        Ok(())
    }
}

} // verus!

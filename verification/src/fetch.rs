use vstd::prelude::*;
use crate::records::RawListing;

verus! {

/// What one endpoint handed back, as a tagged variant: a parsed listing
/// batch from the listings endpoint, a market summary (which carries no
/// extractable listings), or an empty payload.
pub enum FetchPayload {
    ListingBatch(Vec<RawListing>),
    MarketSummary,
    Empty,
}

/// The listings a payload contributes: a batch contributes its records,
/// the other variants contribute nothing. The mapping is total.
pub open spec fn payload_listings_spec(p: FetchPayload) -> Seq<RawListing> {
    match p {
        FetchPayload::ListingBatch(v) => v@,
        FetchPayload::MarketSummary => Seq::empty(),
        FetchPayload::Empty => Seq::empty(),
    }
}

/// Extracts the listings of a payload.
pub fn payload_listings(p: FetchPayload) -> (r: Vec<RawListing>)
    ensures
        r@ == payload_listings_spec(p),
{
    match p {
        FetchPayload::ListingBatch(v) => v,
        FetchPayload::MarketSummary => Vec::new(),
        FetchPayload::Empty => Vec::new(),
    }
}

/// How fetching one region ended: an owned batch of raw listings (possibly
/// empty), or a recoverable failure that contributes nothing.
pub enum RegionOutcome {
    Batch(Vec<RawListing>),
    Failed,
}

/// Where the fetch of one region stands: about to query the primary
/// listings endpoint, about to query the fallback market-summary endpoint,
/// or settled.
pub enum FetchPhase {
    QueryPrimary,
    QuerySecondary,
    Settled(RegionOutcome),
}

/// What the caller observed at the current endpoint: a decoded payload, a
/// non-success response status, or a transport or decoding failure.
pub enum FetchEvent {
    Response(FetchPayload),
    HttpFailure,
    TransportFailure,
}

/// The transition relation of the per-region fetch: a decoded primary or
/// secondary payload settles the region with its listings; a non-success
/// primary status falls back to the secondary endpoint; a non-success
/// secondary status settles with an empty batch; a transport or decoding
/// failure settles the region as failed; a settled phase absorbs every
/// further event.
pub open spec fn fetch_transition(phase: FetchPhase, event: FetchEvent, next: FetchPhase) -> bool {
    match phase {
        FetchPhase::Settled(_) => next == phase,
        FetchPhase::QueryPrimary => match event {
            FetchEvent::Response(p) => settles_with(next, payload_listings_spec(p)),
            FetchEvent::HttpFailure => next is QuerySecondary,
            FetchEvent::TransportFailure => next == FetchPhase::Settled(RegionOutcome::Failed),
        },
        FetchPhase::QuerySecondary => match event {
            FetchEvent::Response(p) => settles_with(next, payload_listings_spec(p)),
            FetchEvent::HttpFailure => settles_with(next, Seq::empty()),
            FetchEvent::TransportFailure => next == FetchPhase::Settled(RegionOutcome::Failed),
        },
    }
}

/// The phase is settled with a batch holding exactly the given listings.
pub open spec fn settles_with(next: FetchPhase, listings: Seq<RawListing>) -> bool {
    match next {
        FetchPhase::Settled(RegionOutcome::Batch(v)) => v@ == listings,
        _ => false,
    }
}

/// Advances the per-region fetch by one observed event.
pub fn advance_fetch(phase: FetchPhase, event: FetchEvent) -> (next: FetchPhase)
    ensures
        fetch_transition(phase, event, next),
{
    match phase {
        FetchPhase::Settled(o) => FetchPhase::Settled(o),
        FetchPhase::QueryPrimary => match event {
            FetchEvent::Response(p) => FetchPhase::Settled(RegionOutcome::Batch(
                payload_listings(p),
            )),
            FetchEvent::HttpFailure => FetchPhase::QuerySecondary,
            FetchEvent::TransportFailure => FetchPhase::Settled(RegionOutcome::Failed),
        },
        FetchPhase::QuerySecondary => match event {
            FetchEvent::Response(p) => FetchPhase::Settled(RegionOutcome::Batch(
                payload_listings(p),
            )),
            FetchEvent::HttpFailure => FetchPhase::Settled(RegionOutcome::Batch(Vec::new())),
            FetchEvent::TransportFailure => FetchPhase::Settled(RegionOutcome::Failed),
        },
    }
}

/// The listings an outcome contributes to the run: a batch contributes its
/// records, a failed region contributes nothing.
pub open spec fn outcome_listings(o: RegionOutcome) -> Seq<RawListing> {
    match o {
        RegionOutcome::Batch(v) => v@,
        RegionOutcome::Failed => Seq::empty(),
    }
}

/// The concatenation, in region order, of what each outcome contributes.
pub open spec fn collected_listings(outs: Seq<RegionOutcome>) -> Seq<RawListing>
    decreases outs.len(),
{
    if outs.len() == 0 {
        Seq::empty()
    } else {
        collected_listings(outs.drop_last()) + outcome_listings(outs.last())
    }
}

/// Folds the per-region outcomes into one ordered batch. Failed regions are
/// isolated: the fold always succeeds and a failure contributes nothing.
pub fn collect_region_batches(outcomes: Vec<RegionOutcome>) -> (all: Vec<RawListing>)
    ensures
        all@ == collected_listings(outcomes@),
{
    let ghost outs_view = outcomes@;
    let n = outcomes.len();
    let mut all: Vec<RawListing> = Vec::new();
    let mut rest = outcomes;
    let mut taken: usize = 0;
    while taken < n
        invariant
            n == outs_view.len(),
            rest@ == outs_view.skip(taken as int),
            taken <= n,
            all@ == collected_listings(outs_view.take(taken as int)),
        decreases n - taken,
    {
        let first = rest.remove(0);
        assert(first == outs_view[taken as int]);
        match first {
            RegionOutcome::Batch(mut v) => {
                let ghost batch_view = v@;
                let bn = v.len();
                let mut j: usize = 0;
                while j < bn
                    invariant
                        bn == batch_view.len(),
                        j <= bn,
                        v@ == batch_view.skip(j as int),
                        all@ == collected_listings(outs_view.take(taken as int))
                            + batch_view.take(j as int),
                    decreases bn - j,
                {
                    let item = v.remove(0);
                    proof {
                        assert(item == batch_view[j as int]);
                        assert(batch_view.take(j + 1) =~= batch_view.take(j as int).push(item));
                        assert(v@ =~= batch_view.skip(j + 1));
                    }
                    all.push(item);
                    j = j + 1;
                }
                proof {
                    assert(batch_view.take(bn as int) =~= batch_view);
                    assert(outs_view.take(taken + 1).drop_last() =~= outs_view.take(
                        taken as int,
                    ));
                    assert(outs_view.take(taken + 1).last() == outs_view[taken as int]);
                }
            },
            RegionOutcome::Failed => {
                proof {
                    assert(outs_view.take(taken + 1).drop_last() =~= outs_view.take(
                        taken as int,
                    ));
                    assert(outs_view.take(taken + 1).last() == outs_view[taken as int]);
                    assert(collected_listings(outs_view.take(taken + 1)) =~= collected_listings(
                        outs_view.take(taken as int),
                    ));
                }
            },
        }
        taken = taken + 1;
    }
    proof {
        assert(outs_view.take(n as int) =~= outs_view);
    }
    all
}

/// Removing a failed region's outcome leaves the collected listings
/// unchanged: a failed region contributes zero records to the run.
pub proof fn lemma_failed_region_contributes_nothing(outs: Seq<RegionOutcome>, i: int)
    requires
        0 <= i < outs.len(),
        outs[i] is Failed,
    ensures
        collected_listings(outs) == collected_listings(outs.remove(i)),
    decreases outs.len(),
{
    if i == outs.len() - 1 {
        assert(outs.remove(i) =~= outs.drop_last());
        assert(collected_listings(outs) =~= collected_listings(outs.drop_last()));
    } else {
        let shorter = outs.drop_last();
        lemma_failed_region_contributes_nothing(shorter, i);
        assert(outs.remove(i).drop_last() =~= shorter.remove(i));
        assert(outs.remove(i).last() == outs.last());
        assert(collected_listings(outs.remove(i)) == collected_listings(shorter.remove(i))
            + outcome_listings(outs.last()));
    }
}

} // verus!

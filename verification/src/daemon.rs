use vstd::prelude::*;
use crate::fetchers::{FetchResults, FoundItem, FoundModel, found_opt_models, found_model};
use crate::saver::Saver;
use crate::serializer::{batches_model, found_models, lemma_batches_model, lemma_found_models};

verus! {

/// The scheduling daemon: a poll interval, the path whence targets are
/// loaded each tick, and the sink of each tick's aggregate.
pub struct FetchDaemon {
    pub interval_secs: u64,
    pub conf_path: String,
    pub saver: Saver,
}

impl FetchDaemon {
    pub fn new(interval_secs: u64, conf_path: String, saver: Saver) -> (r: Self)
        ensures
            r.interval_secs == interval_secs,
            r.conf_path == conf_path,
            r.saver == saver,
    {
        FetchDaemon { interval_secs, conf_path, saver }
    }

    pub fn new_default(interval_secs: u64, saver: Saver) -> (r: Self)
        ensures
            r.interval_secs == interval_secs,
            r.conf_path@ == "configs"@,
            r.saver == saver,
    {
        FetchDaemon { interval_secs, conf_path: "configs".to_owned(), saver }
    }
}

// ---------------------------------------------------------------------------
// Per-tick aggregation.
// ---------------------------------------------------------------------------

/// The present results of one batch, in order.
pub open spec fn hits_of(batch: Seq<Option<FoundModel>>) -> Seq<FoundModel>
    decreases batch.len(),
{
    if batch.len() == 0 {
        Seq::empty()
    } else {
        match batch[0] {
            Option::Some(f) => seq![f] + hits_of(batch.drop_first()),
            Option::None => hits_of(batch.drop_first()),
        }
    }
}

/// The aggregate of one tick over the per-target outcomes, in target order:
/// a failed target (`None`) contributes nothing, and so does a batch without
/// a single hit.
pub open spec fn aggregate_of(outcomes: Seq<Option<Seq<Option<FoundModel>>>>) -> Seq<
    Seq<FoundModel>,
>
    decreases outcomes.len(),
{
    if outcomes.len() == 0 {
        Seq::empty()
    } else {
        let rest = aggregate_of(outcomes.drop_first());
        match outcomes[0] {
            Option::Some(batch) => if hits_of(batch).len() > 0 {
                seq![hits_of(batch)] + rest
            } else {
                rest
            },
            Option::None => rest,
        }
    }
}

pub open spec fn outcomes_model(s: Seq<Option<FetchResults>>) -> Seq<
    Option<Seq<Option<FoundModel>>>,
>
    decreases s,
{
    if s.len() == 0 {
        Seq::empty()
    } else {
        outcomes_model(s.drop_last()).push(
            match s.last() {
                Option::Some(b) => Option::Some(found_opt_models(b@)),
                Option::None => Option::None,
            },
        )
    }
}

pub broadcast proof fn lemma_outcomes_model(s: Seq<Option<FetchResults>>)
    ensures
        (#[trigger] outcomes_model(s)).len() == s.len(),
        forall|i: int|
            0 <= i < s.len() ==> outcomes_model(s)[i] == (match s[i] {
                Option::Some(b) => Option::Some(found_opt_models(b@)),
                Option::None => Option::<Seq<Option<FoundModel>>>::None,
            }),
    decreases s,
{
    if s.len() > 0 {
        lemma_outcomes_model(s.drop_last());
    }
}

fn hits_exec(batch: FetchResults) -> (r: Vec<FoundItem>)
    ensures
        found_models(r@) == hits_of(found_opt_models(batch@)),
{
    let ghost full = found_opt_models(batch@);
    let mut batch = batch;
    let mut r: Vec<FoundItem> = Vec::new();
    while batch.len() > 0
        invariant
            found_models(r@) + hits_of(found_opt_models(batch@)) == hits_of(full),
        decreases batch@.len(),
    {
        let ghost before = found_opt_models(batch@);
        let ghost prev = batch@;
        let head = batch.remove(0);
        proof {
            crate::fetchers::lemma_found_opt_models(prev);
            crate::fetchers::lemma_found_opt_models(batch@);
            assert(batch@ =~= prev.drop_first());
            assert(found_opt_models(batch@) =~= before.drop_first());
            assert(before[0] == crate::fetchers::opt_found_model(prev[0]));
        }
        match head {
            Option::Some(f) => {
                let ghost racc = r@;
                r.push(f);
                proof {
                    assert(r@.drop_last() =~= racc);
                    assert(found_models(r@) == found_models(racc).push(found_model(f)));
                    assert(found_models(racc).push(found_model(f)) =~= found_models(racc)
                        + seq![found_model(f)]);
                    assert(before[0] == Option::Some(found_model(f)));
                    assert(found_models(r@) + hits_of(found_opt_models(batch@)) =~= hits_of(
                        full,
                    ));
                }
            },
            Option::None => {
                proof {
                    assert(before[0] == Option::<FoundModel>::None);
                }
            },
        }
    }
    proof {
        assert(found_opt_models(batch@) =~= Seq::<Option<FoundModel>>::empty());
        assert(found_models(r@) =~= hits_of(full));
    }
    r
}

impl FetchDaemon {
    /// Collect one tick's aggregate from the per-target outcomes: for each
    /// target that returned a batch with at least one hit, the batch's hits,
    /// in target order; failed targets and hitless batches are dropped.
    pub fn collect_fetched(outcomes: Vec<Option<FetchResults>>) -> (r: Vec<Vec<FoundItem>>)
        ensures
            batches_model(r@) == aggregate_of(outcomes_model(outcomes@)),
    {
        let ghost full = outcomes_model(outcomes@);
        let mut outcomes = outcomes;
        let mut r: Vec<Vec<FoundItem>> = Vec::new();
        while outcomes.len() > 0
            invariant
                batches_model(r@) + aggregate_of(outcomes_model(outcomes@)) == aggregate_of(
                    full,
                ),
            decreases outcomes@.len(),
        {
            let ghost before = outcomes_model(outcomes@);
            let ghost prev = outcomes@;
            let head = outcomes.remove(0);
            proof {
                lemma_outcomes_model(prev);
                lemma_outcomes_model(outcomes@);
                assert(outcomes@ =~= prev.drop_first());
                assert(outcomes_model(outcomes@) =~= before.drop_first());
            }
            match head {
                Option::Some(batch) => {
                    let ghost bm = found_opt_models(batch@);
                    proof {
                        assert(before[0] == Option::Some(bm));
                    }
                    let hv = hits_exec(batch);
                    proof {
                        lemma_found_models(hv@);
                    }
                    if hv.len() > 0 {
                        let ghost racc = r@;
                        r.push(hv);
                        proof {
                            assert(r@.drop_last() =~= racc);
                            assert(batches_model(r@) == batches_model(racc).push(
                                found_models(hv@),
                            ));
                            assert(batches_model(racc).push(found_models(hv@))
                                =~= batches_model(racc) + seq![hits_of(bm)]);
                            assert(batches_model(r@) + aggregate_of(outcomes_model(outcomes@))
                                =~= aggregate_of(full));
                        }
                    } else {
                        proof {
                            assert(hits_of(bm).len() == 0);
                        }
                    }
                },
                Option::None => {
                    proof {
                        assert(before[0] is None);
                    }
                },
            }
        }
        proof {
            assert(outcomes_model(outcomes@) =~= Seq::<Option<Seq<Option<FoundModel>>>>::empty());
            assert(batches_model(r@) =~= aggregate_of(full));
        }
        r
    }
}

/// Failure isolation: a tick in which one target failed aggregates to
/// exactly what the same tick without that target aggregates to, whichever
/// target it was.
pub proof fn lemma_failure_isolation(outcomes: Seq<Option<Seq<Option<FoundModel>>>>, k: int)
    requires
        0 <= k < outcomes.len(),
        outcomes[k] is None,
    ensures
        aggregate_of(outcomes) == aggregate_of(outcomes.remove(k)),
    decreases outcomes.len(),
{
    if k == 0 {
        assert(outcomes.remove(0) =~= outcomes.drop_first());
    } else {
        lemma_failure_isolation(outcomes.drop_first(), k - 1);
        assert(outcomes.remove(k).drop_first() =~= outcomes.drop_first().remove(k - 1));
        assert(outcomes.remove(k)[0] == outcomes[0]);
        assert(outcomes.remove(k).len() > 0);
    }
}

}

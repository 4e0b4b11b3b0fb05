//! The writer's retirement list: superseded values held together with the
//! epochs of the readers that may still be observing them.
use crate::epoch::inside;
use crate::epoch::is_inside;
use crate::epoch::Epoch;
use crate::registry::EpochRegistry;
use vstd::prelude::*;

verus! {

/// A reader observed inside a critical section when a value was retired: the
/// epoch value sampled then, and a handle on that reader's counter.
pub struct Witness {
    pub sampled: usize,
    pub epoch: Epoch,
}

/// A retired value with the readers that still pin it.
pub struct Retired<T> {
    pub value: T,
    pub witnesses: Vec<Witness>,
}

/// The sampled epoch values of a witness list.
pub open spec fn samples(ws: Seq<Witness>) -> Seq<usize> {
    ws.map_values(|w: Witness| w.sampled)
}

/// The epoch values of a snapshot that mark readers inside a critical section,
/// in snapshot order.
pub open spec fn inside_of(s: Seq<usize>) -> Seq<usize>
    decreases s.len(),
{
    if s.len() == 0 {
        s
    } else if inside(s.last()) {
        inside_of(s.drop_last()).push(s.last())
    } else {
        inside_of(s.drop_last())
    }
}

/// The witnesses (by sampled value) that still pin a value, given the values
/// `obs` now observed on their counters: those whose counter is unchanged.
pub open spec fn kept(ws: Seq<usize>, obs: Seq<usize>) -> Seq<usize>
    decreases ws.len(),
{
    if ws.len() == 0 {
        ws
    } else if obs[ws.len() - 1] == ws.last() {
        kept(ws.drop_last(), obs.drop_last()).push(ws.last())
    } else {
        kept(ws.drop_last(), obs.drop_last())
    }
}

/// `obs` holds one observed value per witness of each entry.
pub open spec fn observes<T>(es: Seq<(T, Seq<usize>)>, obs: Seq<Seq<usize>>) -> bool {
    &&& obs.len() == es.len()
    &&& forall|i: int| 0 <= i < es.len() ==> (#[trigger] obs[i]).len() == es[i].1.len()
}

/// The entries that stay after a scan, with their pruned witness lists.
pub open spec fn pruned<T>(es: Seq<(T, Seq<usize>)>, obs: Seq<Seq<usize>>) -> Seq<(T, Seq<usize>)>
    decreases es.len(),
{
    if es.len() == 0 {
        es
    } else {
        let k = kept(es.last().1, obs[es.len() - 1]);
        let p = pruned(es.drop_last(), obs.drop_last());
        if k.len() > 0 {
            p.push((es.last().0, k))
        } else {
            p
        }
    }
}

/// The values a scan hands back: those of entries left with no witness, in
/// retirement order.
pub open spec fn released<T>(es: Seq<(T, Seq<usize>)>, obs: Seq<Seq<usize>>) -> Seq<T>
    decreases es.len(),
{
    if es.len() == 0 {
        Seq::empty()
    } else {
        let k = kept(es.last().1, obs[es.len() - 1]);
        let p = released(es.drop_last(), obs.drop_last());
        if k.len() == 0 {
            p.push(es.last().0)
        } else {
            p
        }
    }
}

/// A witness list loses every witness in a pass exactly when every witnessed
/// counter is observed to differ from its sampled value.
pub proof fn lemma_kept_empty_iff_all_changed(ws: Seq<usize>, obs: Seq<usize>)
    requires
        ws.len() == obs.len(),
    ensures
        (kept(ws, obs).len() == 0) <==> (forall|j: int| 0 <= j < ws.len() ==> obs[j] != ws[j]),
    decreases ws.len(),
{
    if ws.len() > 0 {
        let n = ws.len() - 1;
        lemma_kept_empty_iff_all_changed(ws.drop_last(), obs.drop_last());
        if kept(ws, obs).len() == 0 {
            assert forall|j: int| 0 <= j < ws.len() implies obs[j] != ws[j] by {
                if j < n {
                    assert(obs.drop_last()[j] == obs[j] && ws.drop_last()[j] == ws[j]);
                }
            }
        } else if obs[n] != ws[n] {
            let j0 = choose|j: int| 0 <= j < n && obs.drop_last()[j] == ws.drop_last()[j];
            assert(obs[j0] == ws[j0]);
        }
    }
}

/// A snapshot in which no reader is inside a critical section yields no
/// witness.
pub proof fn lemma_outside_snapshot_has_no_witness(s: Seq<usize>)
    requires
        forall|i: int| 0 <= i < s.len() ==> !inside(#[trigger] s[i]),
    ensures
        inside_of(s) == Seq::<usize>::empty(),
    decreases s.len(),
{
    if s.len() > 0 {
        assert forall|i: int| 0 <= i < s.drop_last().len() implies !inside(
            #[trigger] s.drop_last()[i],
        ) by {
            assert(s.drop_last()[i] == s[i]);
        }
        lemma_outside_snapshot_has_no_witness(s.drop_last());
        assert(!inside(s[s.len() - 1]));
    } else {
        assert(s =~= Seq::<usize>::empty());
    }
}

/// A value retired without witnesses is handed back by the next pass, after
/// the values that pass hands back from older entries.
pub proof fn lemma_unwitnessed_value_released<T>(
    es: Seq<(T, Seq<usize>)>,
    value: T,
    obs: Seq<Seq<usize>>,
)
    requires
        obs.len() == es.len() + 1,
    ensures
        released(es.push((value, Seq::<usize>::empty())), obs) == released(es, obs.drop_last()).push(
            value,
        ),
        pruned(es.push((value, Seq::<usize>::empty())), obs) == pruned(es, obs.drop_last()),
{
    let es1 = es.push((value, Seq::<usize>::empty()));
    assert(es1.drop_last() =~= es);
    assert(kept(Seq::<usize>::empty(), obs[es.len() as int]).len() == 0);
}

/// The values of a run of entries, in order.
pub open spec fn values<T>(es: Seq<(T, Seq<usize>)>) -> Seq<T> {
    es.map_values(|e: (T, Seq<usize>)| e.0)
}

/// A pass accounts for every retired value exactly once: taken together, the
/// values handed back and the values kept are the values held before.
pub proof fn lemma_pass_accounts_for_all<T>(es: Seq<(T, Seq<usize>)>, obs: Seq<Seq<usize>>)
    ensures
        released(es, obs).to_multiset().add(values(pruned(es, obs)).to_multiset())
            == values(es).to_multiset(),
        released(es, obs).len() + pruned(es, obs).len() == es.len(),
    decreases es.len(),
{
    broadcast use vstd::seq_lib::group_to_multiset_ensures;

    if es.len() == 0 {
        assert(values(pruned(es, obs)) =~= Seq::<T>::empty());
        assert(values(es) =~= Seq::<T>::empty());
        assert(released(es, obs).to_multiset().add(values(pruned(es, obs)).to_multiset())
            =~= values(es).to_multiset());
    } else {
        let es0 = es.drop_last();
        let obs0 = obs.drop_last();
        let x = es.last().0;
        lemma_pass_accounts_for_all(es0, obs0);
        assert(values(es) =~= values(es0).push(x));
        let k = kept(es.last().1, obs[es.len() - 1]);
        if k.len() > 0 {
            assert(values(pruned(es, obs)) =~= values(pruned(es0, obs0)).push(x));
        }
        assert(released(es, obs).to_multiset().add(values(pruned(es, obs)).to_multiset())
            =~= values(es).to_multiset());
    }
}

/// Every entry that a pass keeps is still pinned by at least one witness.
pub proof fn lemma_kept_entries_are_pinned<T>(es: Seq<(T, Seq<usize>)>, obs: Seq<Seq<usize>>)
    ensures
        forall|k: int| 0 <= k < pruned(es, obs).len() ==> (#[trigger] pruned(es, obs)[k]).1.len() > 0,
    decreases es.len(),
{
    if es.len() > 0 {
        let p = pruned(es.drop_last(), obs.drop_last());
        lemma_kept_entries_are_pinned(es.drop_last(), obs.drop_last());
        assert forall|k: int| 0 <= k < pruned(es, obs).len() implies (#[trigger] pruned(
            es,
            obs,
        )[k]).1.len() > 0 by {
            if k < p.len() {
                assert(pruned(es, obs)[k] == p[k]);
            }
        }
    }
}

/// In a quiescent system, where every witnessed counter has moved on, one
/// pass hands back every retired value in retirement order and leaves the
/// list empty.
pub proof fn lemma_quiescent_pass_reclaims_all<T>(es: Seq<(T, Seq<usize>)>, obs: Seq<Seq<usize>>)
    requires
        observes(es, obs),
        forall|i: int, j: int|
            0 <= i < es.len() && 0 <= j < es[i].1.len() ==> #[trigger] obs[i][j] != es[i].1[j],
    ensures
        pruned(es, obs) == Seq::<(T, Seq<usize>)>::empty(),
        released(es, obs) == values(es),
    decreases es.len(),
{
    if es.len() > 0 {
        let n = es.len() - 1;
        let es0 = es.drop_last();
        let obs0 = obs.drop_last();
        assert(observes(es0, obs0)) by {
            assert forall|i: int| 0 <= i < es0.len() implies (#[trigger] obs0[i]).len() == es0[i].1.len() by {
                assert(obs0[i] == obs[i] && es0[i] == es[i]);
            }
        }
        assert forall|i: int, j: int| 0 <= i < es0.len() && 0 <= j < es0[i].1.len()
            implies #[trigger] obs0[i][j] != es0[i].1[j] by {
            assert(obs0[i] == obs[i] && es0[i] == es[i]);
            assert(obs[i][j] != es[i].1[j]);
        }
        lemma_quiescent_pass_reclaims_all(es0, obs0);
        assert forall|j: int| 0 <= j < es[n].1.len() implies obs[n][j] != es[n].1[j] by {
            assert(obs[n][j] != es[n].1[j]);
        }
        lemma_kept_empty_iff_all_changed(es[n].1, obs[n]);
        assert(values(es) =~= values(es0).push(es[n].0));
    }
}

/// Keeps, in order, the witnesses whose counter still holds the sampled value.
fn keep_unchanged(ws: Vec<Witness>, obs: &Vec<usize>) -> (r: Vec<Witness>)
    requires
        ws.len() == obs.len(),
    ensures
        samples(r@) == kept(samples(ws@), obs@),
{
    let n = ws.len();
    let mut rest = ws;
    let mut out: Vec<Witness> = Vec::new();
    let mut i: usize = 0;
    while i < n
        invariant
            n == ws.len(),
            n == obs.len(),
            i <= n,
            rest@ == ws@.subrange(i as int, n as int),
            samples(out@) == kept(samples(ws@.take(i as int)), obs@.take(i as int)),
        decreases n - i,
    {
        let w = rest.remove(0);
        proof {
            assert(samples(ws@.take(i + 1)).drop_last() =~= samples(ws@.take(i as int)));
            assert(obs@.take(i + 1).drop_last() =~= obs@.take(i as int));
        }
        if w.sampled == obs[i] {
            let ghost before = out@;
            let ghost s = w.sampled;
            out.push(w);
            assert(samples(out@) =~= samples(before).push(s));
        }
        i += 1;
    }
    proof {
        assert(ws@.take(n as int) =~= ws@);
        assert(obs@.take(n as int) =~= obs@);
    }
    out
}

/// The model of a run of retired entries: each value with its sampled
/// witness values.
pub open spec fn model<T>(es: Seq<Retired<T>>) -> Seq<(T, Seq<usize>)> {
    es.map_values(|e: Retired<T>| (e.value, samples(e.witnesses@)))
}

/// The writer-private list of superseded values, oldest first, each pinned by
/// the readers that were inside a critical section when it was retired.
pub struct Retirement<T> {
    entries: Vec<Retired<T>>,
}

impl<T> View for Retirement<T> {
    type V = Seq<(T, Seq<usize>)>;

    closed spec fn view(&self) -> Seq<(T, Seq<usize>)> {
        model(self.entries@)
    }
}

impl<T> Retirement<T> {
    /// An empty retirement list.
    pub fn new() -> (r: Retirement<T>)
        ensures
            r@ == Seq::<(T, Seq<usize>)>::empty(),
    {
        let r = Retirement { entries: Vec::new() };
        assert(r@ =~= Seq::<(T, Seq<usize>)>::empty());
        r
    }

    /// The number of values waiting to be reclaimed.
    pub fn len(&self) -> (r: usize)
        ensures
            r == self@.len(),
    {
        self.entries.len()
    }

    /// Whether any superseded value is still held.
    pub fn has_old_values(&self) -> (r: bool)
        ensures
            r == (self@.len() > 0),
    {
        self.entries.len() != 0
    }

    /// One reclamation pass over the list, given `obs`, the value now observed
    /// on the counter of each witness. A witness stays while its counter still
    /// holds the sampled value; entries left without a witness leave the list
    /// and their values are returned, oldest first.
    pub fn reclaim_observed(&mut self, obs: &Vec<Vec<usize>>) -> (r: Vec<T>)
        requires
            observes(old(self)@, obs.deep_view()),
        ensures
            final(self)@ == pruned(old(self)@, obs.deep_view()),
            r@ == released(old(self)@, obs.deep_view()),
    {
        let ghost es = self@;
        let ghost os = obs.deep_view();
        let n = self.entries.len();
        let mut rest: Vec<Retired<T>> = Vec::new();
        std::mem::swap(&mut rest, &mut self.entries);
        let ghost all = rest@;
        let mut stay: Vec<Retired<T>> = Vec::new();
        let mut out: Vec<T> = Vec::new();
        let mut i: usize = 0;
        while i < n
            invariant
                n == all.len(),
                es == model(all),
                os == obs.deep_view(),
                observes(es, os),
                i <= n,
                rest@ == all.subrange(i as int, n as int),
                model(stay@) == pruned(es.take(i as int), os.take(i as int)),
                out@ == released(es.take(i as int), os.take(i as int)),
            decreases n - i,
        {
            let e = rest.remove(0);
            assert(e == all[i as int]);
            let Retired { value, witnesses } = e;
            assert(obs[i as int]@ == os[i as int]);
            let k = keep_unchanged(witnesses, &obs[i]);
            proof {
                assert(es.take(i + 1).drop_last() =~= es.take(i as int));
                assert(os.take(i + 1).drop_last() =~= os.take(i as int));
                assert(es.take(i + 1).last() == es[i as int]);
                assert(os.take(i + 1)[i as int] == os[i as int]);
            }
            if k.len() == 0 {
                out.push(value);
            } else {
                let ghost before = stay@;
                let r = Retired { value, witnesses: k };
                let ghost x = r;
                stay.push(r);
                assert(model(stay@) =~= model(before).push((x.value, samples(x.witnesses@))));
            }
            i += 1;
        }
        proof {
            assert(es.take(n as int) =~= es);
            assert(os.take(n as int) =~= os);
        }
        self.entries = stay;
        out
    }

    /// Loads the counter of every witness, entry by entry.
    fn observe(&self) -> (r: Vec<Vec<usize>>)
        ensures
            observes(self@, r.deep_view()),
    {
        let mut r: Vec<Vec<usize>> = Vec::new();
        let mut i: usize = 0;
        while i < self.entries.len()
            invariant
                i <= self.entries.len(),
                r.len() == i,
                forall|k: int| 0 <= k < i ==> (#[trigger] r[k]).len() == self.entries[k].witnesses.len(),
            decreases self.entries.len() - i,
        {
            let ws = &self.entries[i].witnesses;
            let mut o: Vec<usize> = Vec::new();
            let mut j: usize = 0;
            while j < ws.len()
                invariant
                    j <= ws.len(),
                    o.len() == j,
                decreases ws.len() - j,
            {
                o.push(ws[j].epoch.load());
                j += 1;
            }
            r.push(o);
            i += 1;
        }
        proof {
            assert forall|k: int| 0 <= k < self@.len() implies (#[trigger] r.deep_view()[k]).len()
                == self@[k].1.len() by {
                assert(r.deep_view()[k] == r[k]@);
            }
        }
        r
    }

    /// One reclamation pass over the list: loads each witness's counter and
    /// returns the values no reader pins any more, oldest first (see
    /// `reclaim_observed`). What the loads return depends on the readers, so
    /// the result is stated for the values observed, whatever they were.
    pub fn try_sync(&mut self) -> (r: Vec<T>)
        ensures
            exists|obs: Seq<Seq<usize>>|
                observes(old(self)@, obs) && final(self)@ == #[trigger] pruned(old(self)@, obs)
                    && r@ == released(old(self)@, obs),
    {
        let obs = self.observe();
        let r = self.reclaim_observed(&obs);
        assert(observes(old(self)@, obs.deep_view()));
        r
    }

    /// Appends a superseded value with a snapshot of the registered epochs and
    /// the values `sampled` from them: the readers sampled inside a critical
    /// section become the value's witnesses.
    pub fn retire_sampled(&mut self, value: T, epochs: Vec<Epoch>, sampled: &Vec<usize>)
        requires
            epochs.len() == sampled.len(),
        ensures
            final(self)@ == old(self)@.push((value, inside_of(sampled@))),
    {
        let n = epochs.len();
        let mut rest = epochs;
        let mut ws: Vec<Witness> = Vec::new();
        let mut i: usize = 0;
        while i < n
            invariant
                n == sampled.len(),
                i <= n,
                rest.len() == n - i,
                samples(ws@) == inside_of(sampled@.take(i as int)),
            decreases n - i,
        {
            let epoch = rest.remove(0);
            let v = sampled[i];
            assert(sampled@.take(i + 1).drop_last() =~= sampled@.take(i as int));
            if is_inside(v) {
                let ghost before = ws@;
                ws.push(Witness { sampled: v, epoch });
                assert(samples(ws@) =~= samples(before).push(v));
            }
            i += 1;
        }
        assert(sampled@.take(n as int) =~= sampled@);
        let ghost before = self.entries@;
        let e = Retired { value, witnesses: ws };
        let ghost x = e;
        self.entries.push(e);
        assert(model(self.entries@) =~= model(before).push((x.value, samples(x.witnesses@))));
    }

    /// Appends a superseded value, loading each epoch of the snapshot once:
    /// the readers found inside a critical section become its witnesses.
    pub fn retire(&mut self, value: T, epochs: Vec<Epoch>)
        ensures
            exists|s: Seq<usize>|
                s.len() == epochs.len() && final(self)@ == old(self)@.push(
                    (value, #[trigger] inside_of(s)),
                ),
    {
        let mut sampled: Vec<usize> = Vec::new();
        let mut i: usize = 0;
        while i < epochs.len()
            invariant
                i <= epochs.len(),
                sampled.len() == i,
            decreases epochs.len() - i,
        {
            sampled.push(epochs[i].load());
            i += 1;
        }
        let ghost s = sampled@;
        self.retire_sampled(value, epochs, &sampled);
        assert(s.len() == epochs.len());
    }

    /// Retires a value that was just superseded: snapshots every counter in
    /// the registry, and the readers found inside a critical section become
    /// the value's witnesses.
    pub fn retire_from(&mut self, value: T, registry: &EpochRegistry)
        ensures
            exists|s: Seq<usize>|
                s.len() == registry.keys().len() && final(self)@ == old(self)@.push(
                    (value, #[trigger] inside_of(s)),
                ),
    {
        let epochs = registry.snapshot();
        self.retire(value, epochs);
    }
}

} // verus!

//! The aggregation table: per-device statistics keyed by identity key.
use vstd::prelude::*;

use crate::event::{
    class_log, day_log, day_of_event, ereport_day, lemma_logs_push, time_error, time_ok, Ereport,
    TimeError,
};
use crate::histogram::{
    bump, first_seen, hist_view, histogram, lemma_first_seen_order, lemma_histogram_total,
    occurs_before, single, total,
};

verus! {

/// The statistics of one device: a histogram of classes, a histogram of
/// days in first-seen order, and its reports in input order.
pub struct DeviceHashEnt {
    ereport_class_hash: Vec<(String, usize)>,
    ereport_ts_hash: Vec<(String, usize)>,
    ereports: Vec<Ereport>,
}

impl View for DeviceHashEnt {
    type V = Seq<Ereport>;

    /// The reports of the device, in input order.
    closed spec fn view(&self) -> Seq<Ereport> {
        self.ereports@
    }
}

impl DeviceHashEnt {
    /// Both histograms agree with the reports, and every report has a day.
    pub closed spec fn wf(&self) -> bool {
        &&& hist_view(self.ereport_class_hash@) == histogram(class_log(self.ereports@))
        &&& hist_view(self.ereport_ts_hash@) == histogram(day_log(self.ereports@))
        &&& forall|i: int| 0 <= i < self.ereports@.len() ==> time_ok(#[trigger] self.ereports@[i])
    }

    /// An entry seeded with its first report, whose day is `ts`.
    pub fn new(ereport: Ereport, ts: String) -> (r: DeviceHashEnt)
        requires
            time_ok(ereport),
            ts@ == day_of_event(ereport),
        ensures
            r.wf(),
            r@ == seq![ereport],
    {
        let class_hash = single(ereport.class.clone());
        let ts_hash = single(ts);
        let ereports = vec![ereport];
        proof {
            assert(class_log(ereports@) =~= seq![ereport.class@]);
            assert(day_log(ereports@) =~= seq![day_of_event(ereport)]);
        }
        DeviceHashEnt {
            ereport_class_hash: class_hash,
            ereport_ts_hash: ts_hash,
            ereports,
        }
    }

    /// How many reports the device has.
    pub fn total(&self) -> (r: usize)
        ensures
            r == self@.len(),
    {
        self.ereports.len()
    }

    /// The device's reports, in input order.
    pub fn ereports(&self) -> (r: &Vec<Ereport>)
        ensures
            r@ == self@,
    {
        &self.ereports
    }

    /// The count of each class, in the order each class was first seen.
    pub fn class_counts(&self) -> (r: Vec<(String, usize)>)
        requires
            self.wf(),
        ensures
            hist_view(r@) == histogram(class_log(self@)),
    {
        copy_hist(&self.ereport_class_hash)
    }

    /// The count of each day, in the order each day was first seen.
    pub fn day_counts(&self) -> (r: Vec<(String, usize)>)
        requires
            self.wf(),
        ensures
            hist_view(r@) == histogram(day_log(self@)),
    {
        copy_hist(&self.ereport_ts_hash)
    }

    /// The distinct days of the device's reports, in first-seen order.
    pub fn day_order(&self) -> (r: Vec<String>)
        requires
            self.wf(),
        ensures
            r@.map_values(|d: String| d@) == first_seen(day_log(self@)),
    {
        let h = &self.ereport_ts_hash;
        let mut r: Vec<String> = Vec::new();
        let mut i: usize = 0;
        while i < h.len()
            invariant
                i <= h@.len(),
                r@.len() == i,
                forall|k: int| 0 <= k < i ==> (#[trigger] r@[k])@ == h@[k].0@,
            decreases h@.len() - i,
        {
            r.push(h[i].0.clone());
            i = i + 1;
        }
        let ghost fs = first_seen(day_log(self@));
        assert(hist_view(h@).len() == h@.len());
        assert(histogram(day_log(self@)).len() == fs.len());
        assert(r@.len() == fs.len());
        assert forall|k: int| 0 <= k < fs.len() implies r@.map_values(|d: String| d@)[k] == fs[k] by {
            assert(hist_view(h@)[k] == histogram(day_log(self@))[k]);
            assert(hist_view(h@)[k].0 == h@[k].0@);
            assert(histogram(day_log(self@))[k].0 == fs[k]);
            assert(r@[k]@ == h@[k].0@);
        }
        assert(r@.map_values(|d: String| d@) =~= fs);
        r
    }

    /// Adds one more report, whose day is `ts`.
    fn add(&mut self, ereport: Ereport, ts: String)
        requires
            old(self).wf(),
            time_ok(ereport),
            ts@ == day_of_event(ereport),
        ensures
            final(self).wf(),
            final(self)@ == old(self)@.push(ereport),
    {
        let class = ereport.class.clone();
        let ghost evs = self.ereports@;
        proof {
            lemma_logs_push(evs, ereport);
        }
        self.ereports.push(ereport);
        // The vector now holds one more report than before and its length
        // is a usize, so no count of the earlier reports is usize::MAX.
        let _n = self.ereports.len();
        assert(class_log(evs).len() < usize::MAX);
        bump(&mut self.ereport_class_hash, &class, Ghost(class_log(evs)));
        bump(&mut self.ereport_ts_hash, &ts, Ghost(day_log(evs)));
        assert forall|i: int| 0 <= i < self.ereports@.len() implies time_ok(
            #[trigger] self.ereports@[i],
        ) by {
            if i < evs.len() {
                assert(self.ereports@[i] == evs[i]);
            }
        }
    }
}

/// A copy of a histogram.
fn copy_hist(h: &Vec<(String, usize)>) -> (r: Vec<(String, usize)>)
    ensures
        hist_view(r@) == hist_view(h@),
{
    let mut r: Vec<(String, usize)> = Vec::new();
    let mut i: usize = 0;
    while i < h.len()
        invariant
            i <= h@.len(),
            r@.len() == i,
            forall|k: int| 0 <= k < i ==> (#[trigger] r@[k]).0@ == h@[k].0@ && r@[k].1 == h@[k].1,
        decreases h@.len() - i,
    {
        r.push((h[i].0.clone(), h[i].1));
        i = i + 1;
    }
    assert(hist_view(r@) =~= hist_view(h@));
    r
}

/// The aggregation table, mapping each identity key to its device's reports.
pub struct DeviceHash {
    entries: Vec<(String, DeviceHashEnt)>,
    model: Ghost<Map<Seq<char>, Seq<Ereport>>>,
}

impl View for DeviceHash {
    type V = Map<Seq<char>, Seq<Ereport>>;

    /// The reports of each device, in input order, by identity key.
    closed spec fn view(&self) -> Map<Seq<char>, Seq<Ereport>> {
        self.model@
    }
}

/// The reports recorded so far under `key`; none for an unseen key.
pub open spec fn reports_for(m: Map<Seq<char>, Seq<Ereport>>, key: Seq<char>) -> Seq<Ereport> {
    if m.contains_key(key) {
        m[key]
    } else {
        Seq::empty()
    }
}

/// The model after recording each of `evs` under `key`, in order.
pub open spec fn record_all(
    m: Map<Seq<char>, Seq<Ereport>>,
    key: Seq<char>,
    evs: Seq<Ereport>,
) -> Map<Seq<char>, Seq<Ereport>>
    decreases evs.len(),
{
    if evs.len() == 0 {
        m
    } else {
        let m0 = record_all(m, key, evs.drop_last());
        m0.insert(key, reports_for(m0, key).push(evs.last()))
    }
}

/// Recording N reports under one key into an empty table leaves that key
/// with exactly those N reports, in order, and both its class histogram
/// and its day histogram count N in all.
pub proof fn lemma_same_key_counts(key: Seq<char>, evs: Seq<Ereport>)
    ensures
        reports_for(record_all(Map::empty(), key, evs), key) == evs,
        total(histogram(class_log(evs))) == evs.len(),
        total(histogram(day_log(evs))) == evs.len(),
    decreases evs.len(),
{
    if evs.len() > 0 {
        lemma_same_key_counts(key, evs.drop_last());
        assert(evs.drop_last().push(evs.last()) =~= evs);
    }
    lemma_histogram_total(class_log(evs));
    lemma_histogram_total(day_log(evs));
}

/// After recording N reports under one key into an empty table, that key's
/// day order lists each distinct day of those reports once, and a day comes
/// before another exactly when it occurred first: wherever the later day
/// occurs among the reports, the earlier one already did.
pub proof fn lemma_same_key_day_order(key: Seq<char>, evs: Seq<Ereport>)
    ensures
        ({
            let days = day_log(reports_for(record_all(Map::empty(), key, evs), key));
            let order = first_seen(days);
            &&& days == day_log(evs)
            &&& order.no_duplicates()
            &&& forall|x: Seq<char>| #[trigger] order.contains(x) <==> days.contains(x)
            &&& forall|i: int, j: int, q: int|
                #![trigger days[q], order[i], order[j]]
                0 <= i < j < order.len() && 0 <= q < days.len() && days[q] == order[j]
                    ==> occurs_before(days, q, order[i])
        }),
{
    lemma_same_key_counts(key, evs);
    lemma_first_seen_order(day_log(evs));
}

impl DeviceHash {
    /// Keys are unique, each entry is well formed and agrees with the model,
    /// and the model holds no other key.
    pub closed spec fn wf(&self) -> bool {
        &&& forall|i: int|
            0 <= i < self.entries@.len() ==> {
                &&& (#[trigger] self.entries@[i]).1.wf()
                &&& self.model@.contains_key(self.entries@[i].0@)
                &&& self.model@[self.entries@[i].0@] == self.entries@[i].1@
            }
        &&& forall|i: int, j: int|
            0 <= i < j < self.entries@.len() ==> (#[trigger] self.entries@[i]).0@ != (
            #[trigger] self.entries@[j]).0@
        &&& forall|k: Seq<char>|
            #[trigger] self.model@.contains_key(k) ==> exists|i: int|
                0 <= i < self.entries@.len() && (#[trigger] self.entries@[i]).0@ == k
    }

    /// The identity keys, in the order of their first report.
    pub closed spec fn key_seq(&self) -> Seq<Seq<char>> {
        self.entries@.map_values(|p: (String, DeviceHashEnt)| p.0@)
    }

    /// Where `key` stands among the entries, if it is there.
    fn position(&self, key: &String) -> (r: Option<usize>)
        ensures
            r matches Some(i) ==> i < self.entries@.len() && self.entries@[i as int].0@ == key@,
            r is None ==> forall|k: int|
                0 <= k < self.entries@.len() ==> (#[trigger] self.entries@[k]).0@ != key@,
    {
        let n = self.entries.len();
        let mut i: usize = 0;
        while i < n
            invariant
                n == self.entries@.len(),
                i <= n,
                forall|k: int| 0 <= k < i ==> (#[trigger] self.entries@[k]).0@ != key@,
            decreases n - i,
        {
            if self.entries[i].0 == *key {
                return Some(i);
            }
            i = i + 1;
        }
        None
    }

    /// Every key of the table appears once in the key sequence, which holds
    /// no other.
    pub proof fn lemma_keys(&self)
        requires
            self.wf(),
        ensures
            self.key_seq().no_duplicates(),
            forall|k: Seq<char>| #[trigger]
                self@.contains_key(k) <==> self.key_seq().contains(k),
    {
        let ks = self.key_seq();
        assert forall|k: Seq<char>| #[trigger] self@.contains_key(k) <==> ks.contains(k) by {
            if self@.contains_key(k) {
                let j = choose|j: int|
                    0 <= j < self.entries@.len() && (#[trigger] self.entries@[j]).0@ == k;
                assert(ks[j] == k);
            }
            if ks.contains(k) {
                let j = choose|j: int| 0 <= j < ks.len() && ks[j] == k;
                assert(self.entries@[j].0@ == k);
            }
        }
        assert forall|i: int, j: int| 0 <= i < ks.len() && 0 <= j < ks.len() && i != j implies ks[i]
            != ks[j] by {
            if i < j {
                assert(self.entries@[i].0@ != self.entries@[j].0@);
            } else {
                assert(self.entries@[j].0@ != self.entries@[i].0@);
            }
        }
    }

    /// How many devices the table holds.
    pub fn len(&self) -> (r: usize)
        ensures
            r == self.key_seq().len(),
    {
        self.entries.len()
    }

    /// The identity key at position `i`.
    pub fn key_at(&self, i: usize) -> (r: &String)
        requires
            i < self.key_seq().len(),
        ensures
            r@ == self.key_seq()[i as int],
    {
        &self.entries[i].0
    }

    /// The entry at position `i`.
    pub fn entry_at(&self, i: usize) -> (r: &DeviceHashEnt)
        requires
            self.wf(),
            i < self.key_seq().len(),
        ensures
            r.wf(),
            self@.contains_key(self.key_seq()[i as int]),
            r@ == self@[self.key_seq()[i as int]],
    {
        &self.entries[i].1
    }

    /// The entry of `key`, if the table has one.
    pub fn get(&self, key: &String) -> (r: Option<&DeviceHashEnt>)
        requires
            self.wf(),
        ensures
            r is Some <==> self@.contains_key(key@),
            r matches Some(e) ==> e.wf() && e@ == self@[key@],
    {
        match self.position(key) {
            Some(i) => Some(&self.entries[i].1),
            None => {
                assert(!self@.contains_key(key@)) by {
                    if self@.contains_key(key@) {
                        let j = choose|j: int|
                            0 <= j < self.entries@.len() && (#[trigger] self.entries@[j]).0@ == key@;
                        assert(self.entries@[j].0@ != key@);
                    }
                }
                None
            },
        }
    }

    /// An empty table.
    pub fn new() -> (r: DeviceHash)
        ensures
            r.wf(),
            r@ == Map::<Seq<char>, Seq<Ereport>>::empty(),
    {
        DeviceHash { entries: Vec::new(), model: Ghost(Map::empty()) }
    }

    /// Records one report under `key`. Fails, leaving the table as it was,
    /// where the report has no usable event time.
    pub fn record(&mut self, key: String, ereport: Ereport) -> (r: Result<(), TimeError>)
        requires
            old(self).wf(),
        ensures
            final(self).wf(),
            r is Ok <==> time_ok(ereport),
            r is Ok ==> final(self)@ == old(self)@.insert(
                key@,
                reports_for(old(self)@, key@).push(ereport),
            ),
            r matches Err(e) ==> final(self)@ == old(self)@ && e == time_error(ereport),
    {
        let ts = match ereport_day(&ereport) {
            Ok(d) => d,
            Err(e) => {
                return Err(e);
            },
        };
        let n = self.entries.len();
        let found = self.position(&key);
        let i: usize = match found {
            Some(j) => j,
            None => n,
        };
        let ghost old_model = self.model@;
        let ghost old_entries = self.entries@;
        if i < n {
            assert(old_model.contains_key(key@));
            self.entries[i].1.add(ereport, ts);
            self.model = Ghost(old_model.insert(key@, old_model[key@].push(ereport)));
            assert forall|k: int| 0 <= k < self.entries@.len() implies {
                &&& (#[trigger] self.entries@[k]).1.wf()
                &&& self.model@.contains_key(self.entries@[k].0@)
                &&& self.model@[self.entries@[k].0@] == self.entries@[k].1@
            } by {
                if k != i {
                    assert(self.entries@[k] == old_entries[k]);
                    if k < i {
                        assert(old_entries[k].0@ != old_entries[i as int].0@);
                    } else {
                        assert(old_entries[i as int].0@ != old_entries[k].0@);
                    }
                }
            }
            assert forall|k: Seq<char>| #[trigger]
                self.model@.contains_key(k) implies exists|j: int|
                0 <= j < self.entries@.len() && (#[trigger] self.entries@[j]).0@ == k by {
                if k != key@ {
                    let j = choose|j: int|
                        0 <= j < old_entries.len() && (#[trigger] old_entries[j]).0@ == k;
                    assert(self.entries@[j].0@ == k);
                } else {
                    assert(self.entries@[i as int].0@ == k);
                }
            }
            assert forall|a: int, b: int|
                0 <= a < b < self.entries@.len() implies (#[trigger] self.entries@[a]).0@ != (
            #[trigger] self.entries@[b]).0@ by {
                assert(old_entries[a].0@ != old_entries[b].0@);
            }
        } else {
            assert(!old_model.contains_key(key@)) by {
                if old_model.contains_key(key@) {
                    let j = choose|j: int|
                        0 <= j < old_entries.len() && (#[trigger] old_entries[j]).0@ == key@;
                    assert(old_entries[j].0@ != key@);
                }
            }
            let ent = DeviceHashEnt::new(ereport, ts);
            let ghost new_key = key@;
            self.entries.push((key, ent));
            self.model = Ghost(old_model.insert(new_key, seq![ereport]));
            assert(reports_for(old_model, new_key).push(ereport) =~= seq![ereport]);
            assert forall|k: int| 0 <= k < self.entries@.len() implies {
                &&& (#[trigger] self.entries@[k]).1.wf()
                &&& self.model@.contains_key(self.entries@[k].0@)
                &&& self.model@[self.entries@[k].0@] == self.entries@[k].1@
            } by {
                if k < n {
                    assert(self.entries@[k] == old_entries[k]);
                }
            }
            assert forall|k: Seq<char>| #[trigger]
                self.model@.contains_key(k) implies exists|j: int|
                0 <= j < self.entries@.len() && (#[trigger] self.entries@[j]).0@ == k by {
                if k != new_key {
                    let j = choose|j: int|
                        0 <= j < old_entries.len() && (#[trigger] old_entries[j]).0@ == k;
                    assert(self.entries@[j].0@ == k);
                } else {
                    assert(self.entries@[n as int].0@ == k);
                }
            }
            assert forall|a: int, b: int|
                0 <= a < b < self.entries@.len() implies (#[trigger] self.entries@[a]).0@ != (
            #[trigger] self.entries@[b]).0@ by {
                if b < n {
                    assert(old_entries[a].0@ != old_entries[b].0@);
                } else {
                    assert(self.entries@[a] == old_entries[a]);
                }
            }
        }
        Ok(())
    }
}

} // verus!

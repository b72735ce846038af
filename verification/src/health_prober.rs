use crate::bounded_queue::{pushed, BoundedQueue};
use vstd::prelude::*;
use vstd::string::*;

verus! {

/// How many records the prober keeps for each instance.
pub const DATA_RECORD_LENGTH: usize = 1000;

/// A point in time: whole seconds since the Unix epoch (UTC) and the
/// nanoseconds past them.
#[derive(Clone, Copy, Debug, PartialEq, Eq, Structural)]
pub struct Timestamp {
    pub secs: i64,
    pub nanos: u32,
}

/// What one relayed connection of an instance sent.
#[derive(Debug)]
pub struct HealthDataPoint {
    /// The name of the instance.
    pub id: String,
    pub ingress_addresses: Vec<String>,
    pub egress_addresses: Vec<String>,
    pub bytes_sent: u32,
    /// When the connection ended.
    pub timestamp: Timestamp,
}

/// A `HealthDataPoint` with its texts as character sequences.
pub struct HealthDataPointView {
    pub id: Seq<char>,
    pub ingress_addresses: Seq<Seq<char>>,
    pub egress_addresses: Seq<Seq<char>>,
    pub bytes_sent: u32,
    pub timestamp: Timestamp,
}

/// The character sequences of a list of texts.
pub open spec fn texts(v: Seq<String>) -> Seq<Seq<char>> {
    v.map_values(|s: String| s@)
}

impl View for HealthDataPoint {
    type V = HealthDataPointView;

    open spec fn view(&self) -> HealthDataPointView {
        HealthDataPointView {
            id: self.id@,
            ingress_addresses: texts(self.ingress_addresses@),
            egress_addresses: texts(self.egress_addresses@),
            bytes_sent: self.bytes_sent,
            timestamp: self.timestamp,
        }
    }
}

/// The views of a list of data points.
pub open spec fn point_views(s: Seq<HealthDataPoint>) -> Seq<HealthDataPointView> {
    s.map_values(|p: HealthDataPoint| p@)
}

fn clone_texts(v: &Vec<String>) -> (r: Vec<String>)
    ensures
        texts(r@) == texts(v@),
{
    let mut r: Vec<String> = Vec::new();
    let mut i: usize = 0;
    while i < v.len()
        invariant
            i <= v.len(),
            r@ == v@.take(i as int),
        decreases v.len() - i,
    {
        r.push(v[i].clone());
        i = i + 1;
        assert(r@ =~= v@.take(i as int));
    }
    assert(v@.take(v.len() as int) =~= v@);
    r
}

impl Clone for HealthDataPoint {
    fn clone(&self) -> (r: Self)
        ensures
            r@ == self@,
    {
        HealthDataPoint {
            id: self.id.clone(),
            ingress_addresses: clone_texts(&self.ingress_addresses),
            egress_addresses: clone_texts(&self.egress_addresses),
            bytes_sent: self.bytes_sent,
            timestamp: self.timestamp,
        }
    }
}

/// The bytes sent over all of `points`.
pub open spec fn total_bytes(points: Seq<HealthDataPoint>) -> nat
    decreases points.len(),
{
    if points.len() == 0 {
        0
    } else {
        total_bytes(points.drop_last()) + points.last().bytes_sent as nat
    }
}

proof fn lemma_total_bytes_bound(points: Seq<HealthDataPoint>)
    ensures
        total_bytes(points) <= points.len() * 0xffff_ffff,
    decreases points.len(),
{
    if points.len() > 0 {
        lemma_total_bytes_bound(points.drop_last());
    }
}

/// The record of one instance.
struct ProbeRecord {
    id: String,
    points: BoundedQueue<HealthDataPoint>,
}

/// The records of the instances by name, in the order in which they were
/// first seen.
spec fn records_map(records: Seq<ProbeRecord>) -> Map<Seq<char>, Seq<HealthDataPoint>>
    decreases records.len(),
{
    if records.len() == 0 {
        Map::empty()
    } else {
        records_map(records.drop_last()).insert(records.last().id@, records.last().points@)
    }
}

/// The recent data points of each instance.
pub struct HealthProber {
    records: Vec<ProbeRecord>,
}

impl View for HealthProber {
    type V = Map<Seq<char>, Seq<HealthDataPoint>>;

    /// The recent data points of each instance, by instance name, oldest first.
    closed spec fn view(&self) -> Map<Seq<char>, Seq<HealthDataPoint>> {
        records_map(self.records@)
    }
}

/// The points held for `id`: none when the prober has no record of it.
pub open spec fn points_of(m: Map<Seq<char>, Seq<HealthDataPoint>>, id: Seq<char>) -> Seq<
    HealthDataPoint,
> {
    if m.contains_key(id) {
        m[id]
    } else {
        Seq::empty()
    }
}

/// `q` is what the prober holds for `id`: its queue, or `None` when it has
/// no record of `id`.
pub open spec fn queue_matches(
    m: Map<Seq<char>, Seq<HealthDataPoint>>,
    id: Seq<char>,
    q: Option<&BoundedQueue<HealthDataPoint>>,
) -> bool {
    match q {
        Some(q) => m.contains_key(id) && q@ == m[id] && q.wf() && q.capacity()
            == DATA_RECORD_LENGTH,
        None => !m.contains_key(id),
    }
}

spec fn ids_unique(records: Seq<ProbeRecord>) -> bool {
    forall|i: int, j: int|
        0 <= i < records.len() && 0 <= j < records.len() && i != j ==> #[trigger] records[i].id@
            != #[trigger] records[j].id@
}

proof fn lemma_records_map(records: Seq<ProbeRecord>)
    requires
        ids_unique(records),
    ensures
        records_map(records).dom().finite(),
        records_map(records).dom().len() == records.len(),
        forall|k: int|
            0 <= k < records.len() ==> #[trigger] records_map(records).contains_key(records[k].id@)
                && records_map(records)[records[k].id@] == records[k].points@,
        forall|id: Seq<char>| #[trigger]
            records_map(records).contains_key(id) ==> exists|k: int|
                0 <= k < records.len() && #[trigger] records[k].id@ == id,
    decreases records.len(),
{
    if records.len() > 0 {
        let d = records.drop_last();
        assert forall|i: int, j: int|
            0 <= i < d.len() && 0 <= j < d.len() && i != j implies #[trigger] d[i].id@
            != #[trigger] d[j].id@ by {
            assert(d[i] == records[i] && d[j] == records[j]);
        }
        lemma_records_map(d);
        if records_map(d).contains_key(records.last().id@) {
            let k = choose|k: int| 0 <= k < d.len() && #[trigger] d[k].id@ == records.last().id@;
            assert(records[k] == d[k]);
            assert(records[k].id@ != records[records.len() - 1].id@);
        }
        assert forall|k: int| 0 <= k < records.len() implies #[trigger] records_map(
            records,
        ).contains_key(records[k].id@) && records_map(records)[records[k].id@]
            == records[k].points@ by {
            if k < d.len() {
                assert(d[k] == records[k]);
                assert(records[k].id@ != records[records.len() - 1].id@);
            }
        }
        assert forall|id: Seq<char>| #[trigger]
            records_map(records).contains_key(id) implies exists|k: int|
            0 <= k < records.len() && #[trigger] records[k].id@ == id by {
            if id != records.last().id@ {
                let k = choose|k: int| 0 <= k < d.len() && #[trigger] d[k].id@ == id;
                assert(records[k] == d[k]);
            } else {
                assert(records[records.len() - 1].id@ == id);
            }
        }
    }
}

impl Default for HealthProber {
    /// A prober with no records.
    fn default() -> (r: HealthProber)
        ensures
            r.wf(),
            r@ == Map::<Seq<char>, Seq<HealthDataPoint>>::empty(),
    {
        HealthProber::new()
    }
}

impl HealthProber {
    /// Each record has a distinct name, keeps `DATA_RECORD_LENGTH` points
    /// and holds only points of its own name.
    pub closed spec fn wf(&self) -> bool {
        &&& ids_unique(self.records@)
        &&& forall|k: int|
            0 <= k < self.records@.len() ==> {
                &&& (#[trigger] self.records@[k]).points.capacity() == DATA_RECORD_LENGTH
                &&& self.records@[k].points.wf()
                &&& forall|j: int|
                    0 <= j < self.records@[k].points@.len() ==> (
                    #[trigger] self.records@[k].points@[j]).id@ == self.records@[k].id@
            }
    }

    /// Every point held for an instance carries its name, and no instance
    /// has more than `DATA_RECORD_LENGTH` points.
    pub proof fn lemma_records_are_bounded(&self, id: Seq<char>)
        requires
            self.wf(),
            self@.contains_key(id),
        ensures
            self@[id].len() <= DATA_RECORD_LENGTH,
            forall|j: int| 0 <= j < self@[id].len() ==> (#[trigger] self@[id][j]).id@ == id,
    {
        lemma_records_map(self.records@);
        let k = choose|k: int| 0 <= k < self.records@.len() && #[trigger] self.records@[k].id@ == id;
        assert(self@.contains_key(self.records@[k].id@));
        assert(self.records@[k].points.wf());
    }

    /// A prober with no records.
    pub fn new() -> (r: HealthProber)
        ensures
            r.wf(),
            r@ == Map::<Seq<char>, Seq<HealthDataPoint>>::empty(),
    {
        HealthProber { records: Vec::new() }
    }

    /// Where the record of `id` stands, if there is one.
    fn find(&self, id: &String) -> (r: Option<usize>)
        requires
            self.wf(),
        ensures
            match r {
                Some(k) => k < self.records@.len() && self.records@[k as int].id@ == id@,
                None => forall|k: int|
                    0 <= k < self.records@.len() ==> #[trigger] self.records@[k].id@ != id@,
            },
    {
        let mut k: usize = 0;
        while k < self.records.len()
            invariant
                k <= self.records@.len(),
                forall|j: int| 0 <= j < k ==> #[trigger] self.records@[j].id@ != id@,
            decreases self.records.len() - k,
        {
            if self.records[k].id == *id {
                return Some(k);
            }
            k = k + 1;
        }
        None
    }

    /// Adds `data_point` to the record of its instance, which is made when
    /// missing; a record keeps the newest `DATA_RECORD_LENGTH` points.
    pub fn insert(&mut self, data_point: HealthDataPoint)
        requires
            old(self).wf(),
        ensures
            final(self).wf(),
            final(self)@.contains_key(data_point.id@),
            final(self)@[data_point.id@].last() == data_point,
            final(self)@ == old(self)@.insert(
                data_point.id@,
                pushed(
                    points_of(old(self)@, data_point.id@),
                    DATA_RECORD_LENGTH as nat,
                    data_point,
                ),
            ),
    {
        proof {
            lemma_records_map(self.records@);
        }
        let id = data_point.id.clone();
        match self.find(&id) {
            Some(k) => {
                let ghost old_records = self.records@;
                let mut record = self.records.remove(k);
                assert(record == old_records[k as int]);
                record.points.push(data_point);
                self.records.insert(k, record);
                proof {
                    let new_records = self.records@;
                    assert(new_records =~= old_records.update(k as int, record));
                    assert forall|i: int, j: int|
                        0 <= i < new_records.len() && 0 <= j < new_records.len() && i
                            != j implies #[trigger] new_records[i].id@
                        != #[trigger] new_records[j].id@ by {
                        assert(new_records[i].id@ == old_records[i].id@);
                        assert(new_records[j].id@ == old_records[j].id@);
                    }
                    lemma_records_map(new_records);
                    assert forall|i: int| 0 <= i < new_records.len() implies {
                        &&& (#[trigger] new_records[i]).points.capacity() == DATA_RECORD_LENGTH
                        &&& new_records[i].points.wf()
                        &&& forall|j: int|
                            0 <= j < new_records[i].points@.len() ==> (
                            #[trigger] new_records[i].points@[j]).id@ == new_records[i].id@
                    } by {
                        if i != k {
                            assert(new_records[i] == old_records[i]);
                        } else {
                            assert forall|j: int|
                                0 <= j < new_records[i].points@.len() implies (
                                #[trigger] new_records[i].points@[j]).id@
                                == new_records[i].id@ by {
                                let olds = old_records[i].points@;
                                if olds.len() == DATA_RECORD_LENGTH && olds.len() > 0 {
                                    if j < olds.len() - 1 {
                                        assert(new_records[i].points@[j] == olds[j + 1]);
                                    }
                                } else {
                                    if j < olds.len() {
                                        assert(new_records[i].points@[j] == olds[j]);
                                    }
                                }
                            }
                        }
                    }
                    let target = old(self)@.insert(
                        data_point.id@,
                        pushed(
                            points_of(old(self)@, data_point.id@),
                            DATA_RECORD_LENGTH as nat,
                            data_point,
                        ),
                    );
                    assert(old_records[k as int].id@ == data_point.id@);
                    assert(old(self)@.contains_key(data_point.id@));
                    assert(points_of(old(self)@, data_point.id@) == old_records[k as int].points@);
                    assert forall|key: Seq<char>| #[trigger]
                        self@.contains_key(key) implies target.contains_key(key)
                        && self@[key] == target[key] by {
                        let i = choose|i: int|
                            0 <= i < new_records.len() && #[trigger] new_records[i].id@ == key;
                        assert(new_records[i].id@ == old_records[i].id@);
                        if i != k {
                            assert(new_records[i] == old_records[i]);
                            assert(old(self)@.contains_key(old_records[i].id@));
                        }
                    }
                    assert forall|key: Seq<char>| #[trigger]
                        target.contains_key(key) implies self@.contains_key(key) by {
                        if key != data_point.id@ {
                            let i = choose|i: int|
                                0 <= i < old_records.len() && #[trigger] old_records[i].id@
                                    == key;
                            assert(new_records[i].id@ == old_records[i].id@);
                            assert(self@.contains_key(new_records[i].id@));
                        } else {
                            assert(new_records[k as int].id@ == old_records[k as int].id@);
                            assert(self@.contains_key(new_records[k as int].id@));
                        }
                    }
                    assert(self@ =~= old(self)@.insert(
                        data_point.id@,
                        pushed(
                            points_of(old(self)@, data_point.id@),
                            DATA_RECORD_LENGTH as nat,
                            data_point,
                        ),
                    ));
                }
            },
            None => {
                let mut points = BoundedQueue::new(DATA_RECORD_LENGTH);
                points.push(data_point);
                let ghost old_records = self.records@;
                self.records.push(ProbeRecord { id, points });
                proof {
                    let new_records = self.records@;
                    assert(new_records.drop_last() =~= old_records);
                    assert(!old(self)@.contains_key(data_point.id@)) by {
                        if old(self)@.contains_key(data_point.id@) {
                            let k = choose|k: int|
                                0 <= k < old_records.len() && #[trigger] old_records[k].id@
                                    == data_point.id@;
                            assert(old_records[k].id@ != data_point.id@);
                        }
                    }
                    assert forall|i: int, j: int|
                        0 <= i < new_records.len() && 0 <= j < new_records.len() && i
                            != j implies #[trigger] new_records[i].id@
                        != #[trigger] new_records[j].id@ by {
                        if i < old_records.len() && j < old_records.len() {
                            assert(new_records[i] == old_records[i]);
                            assert(new_records[j] == old_records[j]);
                        } else if i < old_records.len() {
                            assert(new_records[i] == old_records[i]);
                        } else {
                            assert(new_records[j] == old_records[j]);
                        }
                    }
                    assert forall|i: int| 0 <= i < new_records.len() implies {
                        &&& (#[trigger] new_records[i]).points.capacity() == DATA_RECORD_LENGTH
                        &&& new_records[i].points.wf()
                        &&& forall|j: int|
                            0 <= j < new_records[i].points@.len() ==> (
                            #[trigger] new_records[i].points@[j]).id@ == new_records[i].id@
                    } by {
                        if i < old_records.len() {
                            assert(new_records[i] == old_records[i]);
                        }
                    }
                }
            },
        }
    }

    /// A copy of the points held for `id`, oldest first; `None` when the
    /// prober has no record of `id`.
    pub fn get_points(&self, id: &str) -> (r: Option<Vec<HealthDataPoint>>)
        requires
            self.wf(),
        ensures
            match r {
                Some(v) => self@.contains_key(id@) && point_views(v@) == point_views(self@[id@]),
                None => !self@.contains_key(id@),
            },
    {
        proof {
            lemma_records_map(self.records@);
        }
        let key = String::from_str(id);
        match self.find(&key) {
            Some(k) => {
                let points = &self.records[k].points;
                let mut v: Vec<HealthDataPoint> = Vec::new();
                let mut j: usize = 0;
                while j < points.len()
                    invariant
                        j <= points@.len(),
                        point_views(v@) == point_views(points@.take(j as int)),
                    decreases points@.len() - j,
                {
                    let c = points.get(j).clone();
                    let ghost before = v@;
                    v.push(c);
                    proof {
                        assert(c@ == points@[j as int]@);
                        assert(points@.take(j + 1) =~= points@.take(j as int).push(points@[j as int]));
                        assert(v@ =~= before.push(c));
                        assert(point_views(v@) =~= point_views(before).push(c@));
                        assert(point_views(points@.take(j + 1)) =~= point_views(
                            points@.take(j as int),
                        ).push(points@[j as int]@));
                    }
                    j = j + 1;
                }
                assert(points@.take(points@.len() as int) =~= points@);
                assert(self@.contains_key(self.records@[k as int].id@));
                assert(points@ == self@[id@]);
                Some(v)
            },
            None => {
                proof {
                    if self@.contains_key(id@) {
                        let k = choose|k: int|
                            0 <= k < self.records@.len() && #[trigger] self.records@[k].id@ == id@;
                    }
                }
                None
            },
        }
    }

    /// Calls `f` with the queue of `id`, or with `None` when the prober has
    /// no record of it, and returns what `f` returns.
    pub fn with_queue<R, F: FnOnce(Option<&BoundedQueue<HealthDataPoint>>) -> R>(
        &self,
        id: &str,
        f: F,
    ) -> (r: R)
        requires
            self.wf(),
            forall|q: Option<&BoundedQueue<HealthDataPoint>>|
                queue_matches(self@, id@, q) ==> #[trigger] f.requires((q,)),
        ensures
            exists|q: Option<&BoundedQueue<HealthDataPoint>>|
                queue_matches(self@, id@, q) && #[trigger] f.ensures((q,), r),
    {
        proof {
            lemma_records_map(self.records@);
        }
        let key = String::from_str(id);
        match self.find(&key) {
            Some(k) => {
                let q = Some(&self.records[k].points);
                assert(self@.contains_key(self.records@[k as int].id@));
                assert(queue_matches(self@, id@, q));
                f(q)
            },
            None => {
                proof {
                    if self@.contains_key(id@) {
                        let k = choose|k: int|
                            0 <= k < self.records@.len() && #[trigger] self.records@[k].id@ == id@;
                    }
                }
                let q: Option<&BoundedQueue<HealthDataPoint>> = None;
                assert(queue_matches(self@, id@, q));
                f(q)
            },
        }
    }

    /// The points held for `id`, or none when there is no record of it.
    pub fn points_for(&self, id: &str) -> (r: Vec<HealthDataPoint>)
        requires
            self.wf(),
        ensures
            point_views(r@) == point_views(points_of(self@, id@)),
    {
        match self.get_points(id) {
            Some(v) => v,
            None => Vec::new(),
        }
    }

    /// For each instance with a record, its name and the bytes sent over
    /// the points held; each name once.
    pub fn summary(&self) -> (r: Vec<(String, u64)>)
        requires
            self.wf(),
        ensures
            r@.len() == self@.dom().len(),
            forall|i: int|
                0 <= i < r@.len() ==> self@.contains_key((#[trigger] r@[i]).0@) && r@[i].1
                    == total_bytes(self@[r@[i].0@]),
            forall|i: int, j: int|
                0 <= i < r@.len() && 0 <= j < r@.len() && i != j ==> (#[trigger] r@[i]).0@
                    != (#[trigger] r@[j]).0@,
            forall|id: Seq<char>|
                #[trigger] self@.contains_key(id) ==> exists|i: int|
                    0 <= i < r@.len() && (#[trigger] r@[i]).0@ == id,
    {
        proof {
            lemma_records_map(self.records@);
        }
        let mut r: Vec<(String, u64)> = Vec::new();
        let mut k: usize = 0;
        while k < self.records.len()
            invariant
                k <= self.records@.len(),
                self.wf(),
                r@.len() == k,
                forall|i: int|
                    0 <= i < k ==> (#[trigger] r@[i]).0@ == self.records@[i].id@ && r@[i].1
                        == total_bytes(self.records@[i].points@),
            decreases self.records.len() - k,
        {
            let record = &self.records[k];
            let mut total: u64 = 0;
            let mut j: usize = 0;
            proof {
                assert(record.points@.len() <= DATA_RECORD_LENGTH);
                assert(record.points@.take(0) =~= Seq::<HealthDataPoint>::empty());
            }
            while j < record.points.len()
                invariant
                    j <= record.points@.len() <= DATA_RECORD_LENGTH,
                    total == total_bytes(record.points@.take(j as int)),
                decreases record.points@.len() - j,
            {
                proof {
                    let s = record.points@.take(j + 1);
                    assert(s.drop_last() =~= record.points@.take(j as int));
                    lemma_total_bytes_bound(record.points@.take(j as int));
                }
                total = total + record.points.get(j).bytes_sent as u64;
                j = j + 1;
            }
            assert(record.points@.take(record.points@.len() as int) =~= record.points@);
            r.push((record.id.clone(), total));
            k = k + 1;
        }
        proof {
            assert forall|i: int| 0 <= i < r@.len() implies self@.contains_key(
                (#[trigger] r@[i]).0@,
            ) && r@[i].1 == total_bytes(self@[r@[i].0@]) by {
                assert(self@.contains_key(self.records@[i].id@));
            }
            assert forall|id: Seq<char>|
                #[trigger] self@.contains_key(id) implies exists|i: int|
                0 <= i < r@.len() && (#[trigger] r@[i]).0@ == id by {
                let k = choose|k: int|
                    0 <= k < self.records@.len() && #[trigger] self.records@[k].id@ == id;
                assert(r@[k].0@ == id);
            }
        }
        r
    }
}

} // verus!

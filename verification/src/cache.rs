use vstd::prelude::*;

use crate::crates::{bytes_eq, meta_eq, CrateMetadata};
use crate::errors::Error;
use crate::pubsub::{new_pair_labeled, Publisher, Subscriber};

verus! {

#[verifier::external_type_specification]
#[verifier::external_body]
pub struct ExDb(sled::Db);

#[verifier::external_type_specification]
#[verifier::external_body]
pub struct ExTree(sled::Tree);

/// What the persistent tree holds: each stored key and its bytes.
pub uninterp spec fn store_map(t: sled::Tree) -> Map<Seq<u8>, Seq<u8>>;

/// The SHA-256 digest of a byte sequence.
pub uninterp spec fn sha256_of(data: Seq<u8>) -> Seq<u8>;

/// Relies on openssl::sha::sha256: the digest depends on the bytes
/// alone and is 32 bytes long.
#[verifier::external_body]
pub(crate) fn sha256(data: &[u8]) -> (r: Vec<u8>)
    ensures
        r@ == sha256_of(data@),
        r@.len() == 32,
{
    openssl::sha::sha256(data).to_vec()
}

/// Relies on sled::Config::open and sled::Db::open_tree: a handle on
/// the tree named "files" of the database at the path. With
/// `temporary` the database lives only as long as the handle.
#[verifier::external_body]
fn open_tree(path: &str, temporary: bool) -> (r: Option<(sled::Db, sled::Tree)>) {
    let db = match sled::Config::new().path(path).temporary(temporary).open() {
        Ok(db) => db,
        Err(_) => {
            return None;
        },
    };
    match db.open_tree("files") {
        Ok(tree) => Some((db, tree)),
        Err(_) => None,
    }
}

/// Relies on sled::Tree::get: the value stored at the key, if there is
/// one. A read error is reported as an absent value.
#[verifier::external_body]
fn tree_get(tree: &sled::Tree, key: &[u8]) -> (r: Option<Vec<u8>>)
    ensures
        r matches Some(v) ==> store_map(*tree).contains_pair(key@, v@),
        !store_map(*tree).dom().contains(key@) ==> r is None,
{
    match tree.get(key) {
        Ok(Some(v)) => Some(v.to_vec()),
        Ok(None) => None,
        Err(_) => None,
    }
}

/// Relies on sled::Tree::insert: sets the key to the value and tells
/// whether the key was set before. On an error the tree holds at most
/// what it held plus the new pair.
#[verifier::external_body]
fn tree_insert(tree: &mut sled::Tree, key: &[u8], value: &[u8]) -> (r: Result<bool, ()>)
    ensures
        r matches Ok(replaced) ==> store_map(*final(tree)) == store_map(*old(tree)).insert(
            key@,
            value@,
        ) && replaced == store_map(*old(tree)).dom().contains(key@),
        r is Err ==> forall|k: Seq<u8>| #[trigger]
            store_map(*final(tree)).dom().contains(k) ==> (k == key@ && store_map(*final(tree))[k]
                == value@) || (store_map(*old(tree)).dom().contains(k) && store_map(
                *final(tree),
            )[k] == store_map(*old(tree))[k]),
{
    match tree.insert(key, value) {
        Ok(Some(_)) => Ok(true),
        Ok(None) => Ok(false),
        Err(_) => Err(()),
    }
}

/// The durable content-addressed tarball store: a mapping from a
/// SHA-256 checksum to the bytes it is the digest of.
pub struct ContentStore {
    db: sled::Db,
    tree: sled::Tree,
}

impl View for ContentStore {
    type V = Map<Seq<u8>, Seq<u8>>;

    closed spec fn view(&self) -> Self::V {
        store_map(self.tree)
    }
}

impl ContentStore {
    /// Open (or create) the store in the directory at `path`. With
    /// `temporary` the store is discarded when dropped.
    pub fn open(path: &str, temporary: bool) -> (r: Option<ContentStore>) {
        match open_tree(path, temporary) {
            Some((db, tree)) => Some(ContentStore { db, tree }),
            None => None,
        }
    }

    /// The bytes stored at a checksum. Bytes are handed out only when
    /// they hash to the checksum they were asked for under, so a
    /// corrupted entry reads as absent, as does a read error. The raw
    /// read is the one trusted step; everything after it is the exact
    /// filter below.
    pub fn get(&self, checksum: &Vec<u8>) -> (r: Option<Vec<u8>>)
        ensures
            r matches Some(v) ==> self@.contains_pair(checksum@, v@) && sha256_of(v@) == checksum@,
            !self@.dom().contains(checksum@) ==> r is None,
    {
        filter_hit(tree_get(&self.tree, checksum.as_slice()), checksum)
    }

    /// Store bytes under their own digest. `Ok` tells whether a value
    /// was already stored at the key; even a failed write adds nothing
    /// but possibly this pair.
    pub fn put(&mut self, checksum: &Vec<u8>, bytes: &Vec<u8>) -> (r: Result<bool, Error>)
        requires
            sha256_of(bytes@) == checksum@,
        ensures
            r matches Ok(replaced) ==> final(self)@ == old(self)@.insert(checksum@, bytes@)
                && replaced == old(self)@.dom().contains(checksum@),
            r is Err ==> r == Err::<bool, Error>(Error::StoreError) && forall|k: Seq<u8>|
                #[trigger] final(self)@.dom().contains(k) ==> (k == checksum@ && final(self)@[k]
                == bytes@) || (old(self)@.dom().contains(k) && final(self)@[k] == old(self)@[k]),
    {
        match tree_insert(&mut self.tree, checksum.as_slice(), bytes.as_slice()) {
            Ok(replaced) => Ok(replaced),
            Err(_) => Err(Error::StoreError),
        }
    }
}

/// Keep a raw store read only when its bytes hash to the checksum it
/// was read under: the integrity filter of the whole read path, exact
/// for every value the read may hand back.
pub fn filter_hit(raw: Option<Vec<u8>>, checksum: &Vec<u8>) -> (r: Option<Vec<u8>>)
    ensures
        r == (match raw {
            Some(b) => if sha256_of(b@) == checksum@ {
                Some(b)
            } else {
                None
            },
            None => None,
        }),
{
    match raw {
        Some(v) => {
            let digest = sha256(v.as_slice());
            if bytes_eq(digest.as_slice(), checksum.as_slice()) {
                Some(v)
            } else {
                None
            }
        },
        None => None,
    }
}

/// One pending or in-flight download: the metadata and the publisher
/// that will release its waiters.
pub struct Task {
    pub meta: CrateMetadata,
    publisher: Publisher,
}

impl Task {
    /// The waiter that finishing will release.
    pub closed spec fn id(&self) -> int {
        self.publisher.id()
    }

    /// The metadata of the download it stands for.
    pub closed spec fn spec_meta(&self) -> CrateMetadata {
        self.meta
    }

    /// The metadata of the download it stands for.
    pub fn metadata(&self) -> (r: &CrateMetadata)
        ensures
            *r == self.spec_meta(),
    {
        &self.meta
    }

    /// Release every waiter and hand back the metadata.
    pub fn finish(self) -> (r: CrateMetadata)
        ensures
            r == self.spec_meta(),
    {
        let Task { meta, publisher } = self;
        publisher.finish();
        meta
    }
}

/// The fetch coordinator: deduplicates in-flight downloads, bounds
/// pending work, and hands tasks to workers in submission order.
///
/// The task table holds one waiter per pending metadata; the queue
/// holds the tasks no worker has taken yet.
pub struct Coordinator {
    capacity: usize,
    entries: Vec<(CrateMetadata, Subscriber)>,
    queue: Vec<Task>,
    in_flight: Ghost<Seq<(Seq<char>, Seq<char>, Seq<u8>)>>,
    next_label: Ghost<int>,
}

impl Coordinator {
    /// The task table: each pending metadata with its waiter.
    pub closed spec fn table(&self) -> Seq<(CrateMetadata, Subscriber)> {
        self.entries@
    }

    /// The tasks no worker has taken yet, oldest first.
    pub closed spec fn pending(&self) -> Seq<Task> {
        self.queue@
    }

    /// The metadata of the tasks workers have taken and not yet
    /// finished: the downloads in flight, in the order they left the
    /// queue.
    pub closed spec fn running(&self) -> Seq<(Seq<char>, Seq<char>, Seq<u8>)> {
        self.in_flight@
    }

    /// The configured cap on the task table.
    pub closed spec fn cap(&self) -> int {
        self.capacity as int
    }

    /// Whether the table has an entry for this metadata.
    pub open spec fn table_has(&self, key: (Seq<char>, Seq<char>, Seq<u8>)) -> bool {
        exists|i: int| 0 <= i < self.table().len() && (#[trigger] self.table()[i]).0@ == key
    }

    /// Whether the table entry for `key` carries the waiter `id`.
    pub open spec fn entry_links(&self, key: (Seq<char>, Seq<char>, Seq<u8>), id: int) -> bool {
        exists|i: int|
            0 <= i < self.table().len() && (#[trigger] self.table()[i]).0@ == key
                && self.table()[i].1.id() == id
    }

    /// Every waiter of the table was labeled before the next label.
    pub closed spec fn ids_fresh(&self) -> bool {
        forall|i: int|
            0 <= i < self.entries@.len() ==> (#[trigger] self.entries@[i]).1.id()
                < self.next_label@
    }

    /// The coordinator's invariant: the table is bounded by the cap
    /// and holds at most one entry per metadata; the queue holds at
    /// most one task per metadata, each linked to a table entry with
    /// the same waiter; distinct entries carry distinct waiters.
    pub open spec fn wf(&self) -> bool {
        &&& self.table().len() <= self.cap()
        &&& forall|i: int, j: int|
            #![trigger self.table()[i], self.table()[j]]
            0 <= i < j < self.table().len() ==> self.table()[i].0@ != self.table()[j].0@
        &&& forall|i: int, j: int|
            #![trigger self.table()[i], self.table()[j]]
            0 <= i < j < self.table().len() ==> self.table()[i].1.id() != self.table()[j].1.id()
        &&& forall|i: int, j: int|
            #![trigger self.pending()[i], self.pending()[j]]
            0 <= i < j < self.pending().len() ==> self.pending()[i].spec_meta()@
                != self.pending()[j].spec_meta()@
        &&& forall|i: int|
            0 <= i < self.pending().len() ==> self.entry_links(
                (#[trigger] self.pending()[i]).spec_meta()@,
                self.pending()[i].id(),
            )
        &&& forall|i: int, j: int|
            #![trigger self.running()[i], self.running()[j]]
            0 <= i < j < self.running().len() ==> self.running()[i] != self.running()[j]
        &&& forall|i: int, j: int|
            #![trigger self.pending()[i], self.running()[j]]
            0 <= i < self.pending().len() && 0 <= j < self.running().len()
                ==> self.pending()[i].spec_meta()@ != self.running()[j]
        &&& forall|j: int| 0 <= j < self.running().len() ==> self.table_has(
            #[trigger] self.running()[j],
        )
        &&& self.ids_fresh()
    }

    /// The task table never holds more entries than the configured
    /// cap, whatever has been submitted, taken or removed.
    pub proof fn lemma_table_bounded(&self)
        requires
            self.wf(),
        ensures
            self.table().len() <= self.cap(),
    {
    }

    /// No two queued tasks are for the same metadata: while a task
    /// table entry lives, at most one download is ever dispatched for
    /// its metadata.
    pub proof fn lemma_pending_distinct(&self)
        requires
            self.wf(),
        ensures
            forall|i: int, j: int|
                #![trigger self.pending()[i], self.pending()[j]]
                0 <= i < j < self.pending().len() ==> self.pending()[i].spec_meta()@
                    != self.pending()[j].spec_meta()@,
    {
    }

    /// At most one download is ever in flight per metadata: the tasks
    /// workers have taken and not yet finished are pairwise distinct
    /// by metadata, none of them is still queued, and each of them is
    /// still registered in the table.
    pub proof fn lemma_one_download_per_metadata(&self)
        requires
            self.wf(),
        ensures
            forall|i: int, j: int|
                #![trigger self.running()[i], self.running()[j]]
                0 <= i < j < self.running().len() ==> self.running()[i] != self.running()[j],
            forall|i: int, j: int|
                #![trigger self.pending()[i], self.running()[j]]
                0 <= i < self.pending().len() && 0 <= j < self.running().len()
                    ==> self.pending()[i].spec_meta()@ != self.running()[j],
            forall|j: int|
                0 <= j < self.running().len() ==> self.table_has(#[trigger] self.running()[j]),
    {
    }

    /// The queue never outgrows the table: each queued task is linked
    /// to a table entry of its own, so the count of tasks nobody has
    /// taken yet is bounded by the count of table entries.
    pub proof fn lemma_queue_bounded(&self)
        requires
            self.wf(),
        ensures
            self.pending().len() <= self.table().len(),
    {
        let p = self.pending();
        let t = self.table();
        let f = Seq::new(
            p.len(),
            |i: int|
                choose|j: int|
                    0 <= j < t.len() && (#[trigger] t[j]).0@ == p[i].spec_meta()@ && t[j].1.id()
                        == p[i].id(),
        );
        assert forall|i: int| 0 <= i < f.len() implies 0 <= #[trigger] f[i] < t.len() && t[f[i]].0@
            == p[i].spec_meta()@ by {
            assert(self.entry_links(p[i].spec_meta()@, p[i].id()));
        }
        assert forall|i1: int, i2: int|
            #![trigger f[i1], f[i2]]
            0 <= i1 < p.len() && 0 <= i2 < p.len() && i1 != i2 implies f[i1] != f[i2] by {
            assert(p[i1].spec_meta()@ != p[i2].spec_meta()@);
        }
        assert(f.no_duplicates());
        f.unique_seq_to_set();
        assert forall|x: int| f.to_set().contains(x) implies vstd::set_lib::set_int_range(
            0,
            t.len() as int,
        ).contains(x) by {
            let i = choose|i: int| 0 <= i < f.len() && f[i] == x;
            assert(0 <= f[i] < t.len());
        }
        vstd::set_lib::lemma_int_range(0, t.len() as int);
        vstd::set_lib::lemma_len_subset(
            f.to_set(),
            vstd::set_lib::set_int_range(0, t.len() as int),
        );
    }

    /// A fresh coordinator with the given cap and no pending work.
    pub fn new(capacity: usize) -> (r: Coordinator)
        ensures
            r.wf(),
            r.cap() == capacity,
            r.table().len() == 0,
            r.pending().len() == 0,
            r.running().len() == 0,
    {
        Coordinator {
            capacity,
            entries: Vec::new(),
            queue: Vec::new(),
            in_flight: Ghost(Seq::empty()),
            next_label: Ghost(0),
        }
    }

    /// How many downloads are pending or running.
    pub fn task_count(&self) -> (n: usize)
        ensures
            n == self.table().len(),
    {
        self.entries.len()
    }

    /// How many tasks no worker has taken yet.
    pub fn pending_count(&self) -> (n: usize)
        ensures
            n == self.pending().len(),
    {
        self.queue.len()
    }

    /// The configured cap on the task table.
    pub fn max_pending(&self) -> (n: usize)
        ensures
            n == self.cap(),
    {
        self.capacity
    }

    /// The position of the table entry for this metadata, if any.
    fn find_entry(&self, meta: &CrateMetadata) -> (r: Option<usize>)
        ensures
            r matches Some(i) ==> i < self.table().len() && self.table()[i as int].0@ == meta@,
            r is None ==> forall|i: int|
                0 <= i < self.table().len() ==> (#[trigger] self.table()[i]).0@ != meta@,
    {
        let n = self.entries.len();
        let mut i: usize = 0;
        while i < n
            invariant
                i <= n,
                n == self.table().len(),
                forall|j: int| 0 <= j < i ==> (#[trigger] self.table()[j]).0@ != meta@,
            decreases n - i,
        {
            if meta_eq(&self.entries[i].0, meta) {
                return Some(i);
            }
            i = i + 1;
        }
        None
    }

    /// Submit a download. Idempotent per metadata: while a task for
    /// the same metadata is pending, the caller is handed a waiter of
    /// that task and nothing is enqueued. A new task is refused when
    /// the table is at its cap; otherwise it is appended to both the
    /// table and the queue.
    pub fn submit(&mut self, meta: CrateMetadata) -> (r: Result<Subscriber, Error>)
        requires
            old(self).wf(),
            meta.wf(),
        ensures
            final(self).wf(),
            final(self).cap() == old(self).cap(),
            final(self).running() == old(self).running(),
            old(self).table_has(meta@) ==> {
                &&& r is Ok
                &&& final(self).table() == old(self).table()
                &&& final(self).pending() == old(self).pending()
                &&& final(self).entry_links(meta@, r->Ok_0.id())
            },
            !old(self).table_has(meta@) && old(self).table().len() >= old(self).cap() ==> {
                &&& r == Err::<Subscriber, Error>(Error::Overloaded)
                &&& final(self).table() == old(self).table()
                &&& final(self).pending() == old(self).pending()
            },
            !old(self).table_has(meta@) && old(self).table().len() < old(self).cap() ==> {
                &&& r is Ok
                &&& final(self).table().len() == old(self).table().len() + 1
                &&& forall|i: int|
                    0 <= i < old(self).table().len() ==> final(self).table()[i] == old(
                        self,
                    ).table()[i]
                &&& final(self).table().last().0 == meta
                &&& final(self).table().last().1.id() == r->Ok_0.id()
                &&& final(self).pending().len() == old(self).pending().len() + 1
                &&& forall|i: int|
                    0 <= i < old(self).pending().len() ==> final(self).pending()[i] == old(
                        self,
                    ).pending()[i]
                &&& final(self).pending().last().spec_meta()@ == meta@
                &&& final(self).pending().last().id() == r->Ok_0.id()
            },
    {
        match self.find_entry(&meta) {
            Some(i) => {
                let sub = self.entries[i].1.subscribe();
                Ok(sub)
            },
            None => {
                if self.entries.len() >= self.capacity {
                    return Err(Error::Overloaded);
                }
                let label = self.next_label;
                proof {
                    self.next_label@ = self.next_label@ + 1;
                }
                let (publisher, subscriber) = new_pair_labeled(label);
                let handed_out = subscriber.subscribe();
                self.queue.push(Task { meta: meta.clone(), publisher });
                self.entries.push((meta, subscriber));
                proof {
                    let t = self.table();
                    let p = self.pending();
                    let oldt = old(self).table();
                    let oldp = old(self).pending();
                    let n = oldt.len() as int;
                    assert(!old(self).table_has(meta@));
                    assert forall|j: int| 0 <= j < old(self).running().len() implies (
                    #[trigger] old(self).running()[j]) != meta@ by {
                        assert(old(self).table_has(old(self).running()[j]));
                    }
                    assert forall|j: int| 0 <= j < self.running().len() implies self.table_has(
                        #[trigger] self.running()[j],
                    ) by {
                        let w = choose|w: int|
                            0 <= w < oldt.len() && (#[trigger] oldt[w]).0@ == old(
                                self,
                            ).running()[j];
                        assert(t[w] == oldt[w]);
                        assert(t[w].0@ == self.running()[j]);
                    }
                    assert forall|i: int| 0 <= i < oldp.len() implies (
                    #[trigger] oldp[i]).spec_meta()@ != meta@ by {
                        assert(old(self).entry_links(oldp[i].spec_meta()@, oldp[i].id()));
                        let j = choose|j: int|
                            0 <= j < oldt.len() && (#[trigger] oldt[j]).0@
                                == oldp[i].spec_meta()@ && oldt[j].1.id() == oldp[i].id();
                        assert(oldt[j].0@ != meta@);
                    }
                    assert forall|i: int| 0 <= i < p.len() implies self.entry_links(
                        (#[trigger] p[i]).spec_meta()@,
                        p[i].id(),
                    ) by {
                        if i < oldp.len() {
                            assert(old(self).entry_links(oldp[i].spec_meta()@, oldp[i].id()));
                            let j = choose|j: int|
                                0 <= j < oldt.len() && (#[trigger] oldt[j]).0@
                                    == oldp[i].spec_meta()@ && oldt[j].1.id() == oldp[i].id();
                            assert(t[j] == oldt[j]);
                            assert(t[j].0@ == p[i].spec_meta()@ && t[j].1.id() == p[i].id());
                        } else {
                            assert(t[n].0@ == p[i].spec_meta()@ && t[n].1.id() == p[i].id());
                        }
                    }
                }
                Ok(handed_out)
            },
        }
    }

    /// Hand out the oldest task nobody has taken yet. A task handed
    /// out counts as a download in flight until it is completed.
    pub fn take_task(&mut self) -> (r: Option<Task>)
        requires
            old(self).wf(),
        ensures
            final(self).wf(),
            final(self).cap() == old(self).cap(),
            final(self).table() == old(self).table(),
            old(self).pending().len() == 0 ==> r is None && final(self).pending() == old(
                self,
            ).pending() && final(self).running() == old(self).running(),
            old(self).pending().len() > 0 ==> {
                &&& r matches Some(t)
                &&& r->0 == old(self).pending()[0]
                &&& final(self).pending() == old(self).pending().remove(0)
                &&& final(self).running() == old(self).running().push(
                    old(self).pending()[0].spec_meta()@,
                )
                &&& forall|i: int|
                    0 <= i < final(self).pending().len()
                        ==> (#[trigger] final(self).pending()[i]).spec_meta()@
                        != old(self).pending()[0].spec_meta()@
            },
    {
        if self.queue.len() == 0 {
            None
        } else {
            let t = self.queue.remove(0);
            proof {
                let key = t.spec_meta()@;
                self.in_flight@ = self.in_flight@.push(key);
                let oldp = old(self).pending();
                let oldr = old(self).running();
                assert(oldp[0] == t);
                assert forall|j: int| 0 <= j < oldr.len() implies (#[trigger] oldr[j])
                    != key by {
                    assert(oldp[0].spec_meta()@ != oldr[j]);
                }
                assert(old(self).entry_links(key, oldp[0].id()));
                assert forall|j: int| 0 <= j < self.running().len() implies self.table_has(
                    #[trigger] self.running()[j],
                ) by {
                    if j < oldr.len() {
                        assert(old(self).table_has(oldr[j]));
                        let w = choose|w: int|
                            0 <= w < old(self).table().len() && (#[trigger] old(
                                self,
                            ).table()[w]).0@ == oldr[j];
                        assert(self.table()[w].0@ == self.running()[j]);
                    } else {
                        let w = choose|w: int|
                            0 <= w < old(self).table().len() && (#[trigger] old(
                                self,
                            ).table()[w]).0@ == key && old(self).table()[w].1.id() == oldp[0].id();
                        assert(self.table()[w].0@ == self.running()[j]);
                    }
                }
            }
            Some(t)
        }
    }

    /// Drop the table entry for a completed download, after its
    /// waiters were released: the metadata leaves the in-flight set
    /// and its entry leaves the table. Tells whether an entry was
    /// there at all; under the invariant it always is.
    #[verifier::rlimit(50)]
    pub fn remove_entry(&mut self, meta: &CrateMetadata) -> (found: bool)
        requires
            old(self).wf(),
            old(self).running().contains(meta@),
            forall|i: int| 0 <= i < old(self).pending().len() ==> (#[trigger] old(
                self,
            ).pending()[i]).spec_meta()@ != meta@,
        ensures
            final(self).wf(),
            final(self).cap() == old(self).cap(),
            final(self).pending() == old(self).pending(),
            found == old(self).table_has(meta@),
            found,
            !final(self).table_has(meta@),
            !final(self).running().contains(meta@),
            final(self).running() == old(self).running().remove(
                old(self).running().index_of(meta@),
            ),
            exists|i: int|
                0 <= i < old(self).table().len() && (#[trigger] old(self).table()[i]).0@ == meta@
                    && final(self).table() == old(self).table().remove(i),
    {
        match self.find_entry(meta) {
            Some(i) => {
                let _ = self.entries.remove(i);
                proof {
                    let oldt = old(self).table();
                    let oldp = old(self).pending();
                    let oldr = old(self).running();
                    let ii = i as int;
                    let ridx = oldr.index_of(meta@);
                    assert(0 <= ridx < oldr.len() && oldr[ridx] == meta@);
                    self.in_flight@ = self.in_flight@.remove(ridx);
                    let t = self.table();
                    assert forall|k: int| 0 <= k < self.running().len() implies (
                    #[trigger] self.running()[k]) != meta@ by {
                        if k < ridx {
                            assert(self.running()[k] == oldr[k]);
                            assert(oldr[k] != oldr[ridx]);
                        } else {
                            assert(self.running()[k] == oldr[k + 1]);
                            assert(oldr[k + 1] != oldr[ridx]);
                        }
                    }
                    assert forall|k: int| 0 <= k < t.len() implies (#[trigger] t[k]).0@
                        != meta@ by {
                        if k < ii {
                            assert(t[k] == oldt[k]);
                        } else {
                            assert(t[k] == oldt[k + 1]);
                        }
                    }
                    assert forall|a: int, b: int|
                        #![trigger t[a], t[b]]
                        0 <= a < b < t.len() implies t[a].0@ != t[b].0@ && t[a].1.id()
                        != t[b].1.id() by {
                        let a0 = if a < ii {
                            a
                        } else {
                            a + 1
                        };
                        let b0 = if b < ii {
                            b
                        } else {
                            b + 1
                        };
                        assert(t[a] == oldt[a0]);
                        assert(t[b] == oldt[b0]);
                        assert(oldt[a0].0@ != oldt[b0].0@ && oldt[a0].1.id() != oldt[b0].1.id());
                    }
                    assert forall|k: int| 0 <= k < oldp.len() implies self.entry_links(
                        (#[trigger] oldp[k]).spec_meta()@,
                        oldp[k].id(),
                    ) by {
                        assert(old(self).entry_links(oldp[k].spec_meta()@, oldp[k].id()));
                        let j = choose|j: int|
                            0 <= j < oldt.len() && (#[trigger] oldt[j]).0@
                                == oldp[k].spec_meta()@ && oldt[j].1.id() == oldp[k].id();
                        assert(oldt[j].0@ != meta@);
                        if j < ii {
                            assert(self.table()[j] == oldt[j]);
                        } else {
                            assert(j > ii);
                            assert(self.table()[j - 1] == oldt[j]);
                        }
                    }
                    assert forall|a: int, b: int|
                        #![trigger self.running()[a], self.running()[b]]
                        0 <= a < b < self.running().len() implies self.running()[a]
                        != self.running()[b] by {
                        let a0 = if a < ridx {
                            a
                        } else {
                            a + 1
                        };
                        let b0 = if b < ridx {
                            b
                        } else {
                            b + 1
                        };
                        assert(self.running()[a] == oldr[a0]);
                        assert(self.running()[b] == oldr[b0]);
                    }
                    assert forall|a: int, b: int|
                        #![trigger self.pending()[a], self.running()[b]]
                        0 <= a < self.pending().len() && 0 <= b < self.running().len() implies
                        self.pending()[a].spec_meta()@ != self.running()[b] by {
                        let b0 = if b < ridx {
                            b
                        } else {
                            b + 1
                        };
                        assert(self.running()[b] == oldr[b0]);
                        assert(oldp[a].spec_meta()@ != oldr[b0]);
                    }
                    assert forall|k: int| 0 <= k < self.running().len() implies self.table_has(
                        #[trigger] self.running()[k],
                    ) by {
                        let k0 = if k < ridx {
                            k
                        } else {
                            k + 1
                        };
                        assert(self.running()[k] == oldr[k0]);
                        assert(old(self).table_has(oldr[k0]));
                        let w = choose|w: int|
                            0 <= w < oldt.len() && (#[trigger] oldt[w]).0@ == oldr[k0];
                        assert(oldt[w].0@ != meta@);
                        if w < ii {
                            assert(self.table()[w].0@ == self.running()[k]);
                        } else {
                            assert(w > ii);
                            assert(self.table()[w - 1].0@ == self.running()[k]);
                        }
                    }
                }
                true
            },
            None => {
                proof {
                    let ridx = old(self).running().index_of(meta@);
                    assert(0 <= ridx < old(self).running().len() && old(self).running()[ridx]
                        == meta@);
                    assert(old(self).table_has(meta@));
                    assert(false);
                }
                false
            },
        }
    }
}

} // verus!

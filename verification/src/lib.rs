use vstd::prelude::*;
use vstd::string::StrSliceExecFns;

pub mod cache;
pub mod crates;
pub mod errors;
pub mod index;
pub mod pubsub;
pub mod utils;

use crate::cache::{sha256, sha256_of, ContentStore, Coordinator, Task};
use crate::crates::{bytes_eq, str_eq, CrateIdentity, CrateMetadata};
use crate::errors::Error;
use crate::index::IndexSnapshot;
use crate::pubsub::Subscriber;

verus! {

/// The chunks of a character sequence between slashes. The slashes
/// belong to no chunk; the text after the last slash is the final
/// chunk, so there is always at least one.
pub open spec fn spec_split_slash(s: Seq<char>) -> Seq<Seq<char>>
    decreases s.len(),
{
    if s.len() == 0 {
        seq![Seq::empty()]
    } else if s.last() == '/' {
        spec_split_slash(s.drop_last()).push(Seq::empty())
    } else {
        let r = spec_split_slash(s.drop_last());
        r.update(r.len() - 1, r.last().push(s.last()))
    }
}

/// Split a path into its segments at each slash.
fn split_path(s: &str) -> (r: Vec<String>)
    ensures
        r@.map_values(|x: String| x@) == spec_split_slash(s@),
{
    let mut out: Vec<String> = Vec::new();
    let mut cur = String::new();
    let n = s.unicode_len();
    let mut i: usize = 0;
    proof {
        assert(s@.take(0) =~= Seq::<char>::empty());
        assert(out@.map_values(|x: String| x@) + seq![cur@] =~= seq![Seq::<char>::empty()]);
    }
    while i < n
        invariant
            i <= n,
            n == s@.len(),
            spec_split_slash(s@.take(i as int)) == out@.map_values(|x: String| x@) + seq![cur@],
        decreases n - i,
    {
        proof {
            assert(s@.take(i + 1).drop_last() =~= s@.take(i as int));
            assert(s@.take(i + 1).last() == s@[i as int]);
        }
        let ghost prev_out = out@;
        let ghost prev_cur = cur@;
        let c = s.get_char(i);
        if c == '/' {
            out.push(cur);
            cur = String::new();
            proof {
                assert(out@.map_values(|x: String| x@) =~= prev_out.map_values(
                    |x: String| x@,
                ).push(prev_cur));
                assert(spec_split_slash(s@.take(i + 1)) =~= out@.map_values(|x: String| x@)
                    + seq![cur@]);
            }
        } else {
            cur.push(c);
            proof {
                let m = prev_out.map_values(|x: String| x@);
                let r = m + seq![prev_cur];
                assert(r.last() == prev_cur);
                assert(r.update(r.len() - 1, prev_cur.push(c)) =~= m + seq![cur@]);
                assert(spec_split_slash(s@.take(i + 1)) =~= out@.map_values(|x: String| x@)
                    + seq![cur@]);
            }
        }
        i = i + 1;
    }
    proof {
        assert(s@.take(n as int) =~= s@);
    }
    let ghost prev_out = out@;
    let ghost prev_cur = cur@;
    out.push(cur);
    proof {
        assert(out@.map_values(|x: String| x@) =~= prev_out.map_values(|x: String| x@) + seq![
            prev_cur,
        ]);
    }
    out
}

/// The identity a download request path names: exactly the paths of
/// the form /api/v1/crates/{name}/{version}/download, with name and
/// version non-empty segments. Anything else draws a 400.
pub open spec fn spec_download_route(path: Seq<char>) -> Option<(Seq<char>, Seq<char>)> {
    let segs = spec_split_slash(path);
    if segs.len() == 7 && segs[0] == Seq::<char>::empty() && segs[1] == "api"@ && segs[2] == "v1"@
        && segs[3] == "crates"@ && segs[6] == "download"@ && segs[4].len() > 0 && segs[5].len()
        > 0 {
        Some((segs[4], segs[5]))
    } else {
        None
    }
}

/// Parse a request path into the name and version it asks for, or
/// nothing for any other path.
pub fn parse_download_path(path: &str) -> (r: Option<(String, String)>)
    ensures
        match r {
            Some(p) => spec_download_route(path@) == Some((p.0@, p.1@)),
            None => spec_download_route(path@) is None,
        },
{
    proof {
        reveal_strlit("api");
        reveal_strlit("v1");
        reveal_strlit("crates");
        reveal_strlit("download");
        reveal_strlit("");
        assert(""@ =~= Seq::<char>::empty());
    }
    let segs = split_path(path);
    proof {
        let sv = spec_split_slash(path@);
        assert(sv == segs@.map_values(|x: String| x@));
        assert(forall|k: int|
            0 <= k < segs@.len() ==> sv[k] == (#[trigger] segs@[k])@);
    }
    if segs.len() != 7 {
        return None;
    }
    if !str_eq(segs[0].as_str(), "") {
        return None;
    }
    if !str_eq(segs[1].as_str(), "api") {
        return None;
    }
    if !str_eq(segs[2].as_str(), "v1") {
        return None;
    }
    if !str_eq(segs[3].as_str(), "crates") {
        return None;
    }
    if !str_eq(segs[6].as_str(), "download") {
        return None;
    }
    if segs[4].as_str().is_empty() || segs[5].as_str().is_empty() {
        return None;
    }
    Some((segs[4].clone(), segs[5].clone()))
}

/// Everything request handling, the fetch workers and the background
/// loops share: the content store, the current index snapshot, and the
/// fetch coordinator. Built once at startup and threaded through by
/// reference.
pub struct CoreContext {
    pub store: ContentStore,
    pub snapshot: IndexSnapshot,
    pub coordinator: Coordinator,
}

/// What the download endpoint does with one request, up to its first
/// wait.
pub enum BeginOutcome {
    /// The index has no such release: respond 404.
    NotFound,
    /// The store already holds the tarball: respond 200 with it.
    Ready(Vec<u8>),
    /// The task table is saturated: respond 500 at once.
    Overloaded,
    /// A download is pending: wait on the subscriber, then read the
    /// store again at the checksum the index resolved.
    Wait(Subscriber, Vec<u8>),
}

/// What a worker's attempt at one task came to, handed back by the
/// caller that performed the outside work.
pub enum WorkerEvent {
    /// The quick recheck found the store already serving the checksum;
    /// no download was made.
    AlreadyCached,
    /// The download completed with these bytes.
    Fetched(Vec<u8>),
    /// The download failed.
    FetchFailed,
}

/// What completing one task reports, for the worker's log line.
pub struct TaskReport {
    /// Success with the number of bytes persisted, or the error that
    /// ended the attempt.
    pub result: Result<usize, Error>,
    /// Whether the store already held a value at the checksum when the
    /// downloaded bytes were persisted; a surprise, but never an
    /// error, since equal checksums mean equal bytes.
    pub replaced: bool,
    /// Whether the task's table entry was still there to remove; its
    /// absence is a bug signal.
    pub entry_was_present: bool,
}

impl CoreContext {
    /// The coordinator's invariant and the snapshot's checksum shape
    /// together carry the whole context.
    pub open spec fn wf(&self) -> bool {
        &&& self.coordinator.wf()
        &&& self.snapshot.wf()
    }

    /// Assemble the context at startup.
    pub fn new(store: ContentStore, snapshot: IndexSnapshot, max_pending: usize) -> (r:
        CoreContext)
        requires
            snapshot.wf(),
        ensures
            r.wf(),
            r.store == store,
            r.snapshot == snapshot,
            r.coordinator.cap() == max_pending,
            r.coordinator.table().len() == 0,
            r.coordinator.pending().len() == 0,
    {
        CoreContext { store, snapshot, coordinator: Coordinator::new(max_pending) }
    }

    /// Swap in a freshly built snapshot, wholesale: every later lookup
    /// answers from the new mapping; no merge of old and new is ever
    /// visible.
    pub fn install_snapshot(&mut self, snapshot: IndexSnapshot)
        ensures
            final(self).snapshot == snapshot,
            final(self).store == old(self).store,
            final(self).coordinator == old(self).coordinator,
    {
        self.snapshot = snapshot;
    }

    /// The cached bytes at a checksum, if the store holds bytes that
    /// hash to it.
    pub fn read_cached(&self, checksum: &Vec<u8>) -> (r: Option<Vec<u8>>)
        ensures
            r matches Some(v) ==> self.store@.contains_pair(checksum@, v@) && sha256_of(v@)
                == checksum@,
            !self.store@.dom().contains(checksum@) ==> r is None,
    {
        self.store.get(checksum)
    }

    /// Resolve one download request up to its first wait: look the
    /// identity up in the snapshot, serve straight from the store on a
    /// hit, and otherwise coalesce onto or create the download task.
    pub fn begin_download(&mut self, ident: &CrateIdentity) -> (r: BeginOutcome)
        requires
            old(self).wf(),
        ensures
            final(self).wf(),
            final(self).snapshot == old(self).snapshot,
            final(self).store == old(self).store,
            final(self).coordinator.cap() == old(self).coordinator.cap(),
            r is NotFound <==> !old(self).snapshot@.dom().contains(ident@),
            r matches BeginOutcome::Ready(bytes) ==> {
                &&& sha256_of(bytes@) == old(self).snapshot@[ident@]
                &&& old(self).store@.contains_pair(old(self).snapshot@[ident@], bytes@)
            },
            r is NotFound || r is Ready ==> final(self).coordinator == old(self).coordinator,
            r is Overloaded ==> {
                &&& old(self).coordinator.table().len() >= old(self).coordinator.cap()
                &&& final(self).coordinator.table() == old(self).coordinator.table()
                &&& final(self).coordinator.pending() == old(self).coordinator.pending()
            },
            r matches BeginOutcome::Wait(sub, checksum) ==> {
                &&& checksum@ == old(self).snapshot@[ident@]
                &&& final(self).coordinator.entry_links(
                    (ident@.0, ident@.1, checksum@),
                    sub.id(),
                )
                &&& old(self).coordinator.table_has((ident@.0, ident@.1, checksum@)) ==> {
                    &&& final(self).coordinator.table() == old(self).coordinator.table()
                    &&& final(self).coordinator.pending() == old(self).coordinator.pending()
                }
                &&& !old(self).coordinator.table_has((ident@.0, ident@.1, checksum@)) ==> {
                    &&& final(self).coordinator.pending().len() == old(
                        self,
                    ).coordinator.pending().len() + 1
                    &&& forall|i: int|
                        0 <= i < old(self).coordinator.pending().len()
                            ==> #[trigger] final(self).coordinator.pending()[i] == old(
                            self,
                        ).coordinator.pending()[i]
                    &&& final(self).coordinator.pending().last().spec_meta()@ == (
                        ident@.0,
                        ident@.1,
                        checksum@,
                    )
                    &&& final(self).coordinator.pending().last().id() == sub.id()
                    &&& final(self).coordinator.table().len() == old(
                        self,
                    ).coordinator.table().len() + 1
                }
            },
    {
        let checksum = match self.snapshot.lookup(ident) {
            Some(c) => c,
            None => {
                return BeginOutcome::NotFound;
            },
        };
        match self.store.get(&checksum) {
            Some(bytes) => BeginOutcome::Ready(bytes),
            None => {
                let meta = CrateMetadata {
                    name: ident.name.clone(),
                    version: ident.version.clone(),
                    checksum: crate::crates::clone_bytes(&checksum),
                };
                match self.coordinator.submit(meta) {
                    Ok(sub) => {
                        proof {
                            let c = self.coordinator;
                            let key = (ident@.0, ident@.1, old(self).snapshot@[ident@]);
                            if !old(self).coordinator.table_has(key) {
                                assert(c.table()[c.table().len() - 1].0@ == key && c.table()[
                                    c.table().len() - 1].1.id() == sub.id());
                            }
                        }
                        BeginOutcome::Wait(sub, checksum)
                    },
                    Err(_) => BeginOutcome::Overloaded,
                }
            },
        }
    }

    /// Hand a worker the oldest task nobody has taken yet.
    pub fn take_task(&mut self) -> (r: Option<Task>)
        requires
            old(self).wf(),
        ensures
            final(self).wf(),
            final(self).snapshot == old(self).snapshot,
            final(self).store == old(self).store,
            final(self).coordinator.cap() == old(self).coordinator.cap(),
            final(self).coordinator.table() == old(self).coordinator.table(),
            old(self).coordinator.pending().len() == 0 ==> r is None
                && final(self).coordinator.pending() == old(self).coordinator.pending()
                && final(self).coordinator.running() == old(self).coordinator.running(),
            old(self).coordinator.pending().len() > 0 ==> {
                &&& r matches Some(t)
                &&& r->0 == old(self).coordinator.pending()[0]
                &&& final(self).coordinator.pending() == old(self).coordinator.pending().remove(0)
                &&& final(self).coordinator.running() == old(self).coordinator.running().push(
                    old(self).coordinator.pending()[0].spec_meta()@,
                )
                &&& forall|i: int|
                    0 <= i < final(self).coordinator.pending().len()
                        ==> (#[trigger] final(self).coordinator.pending()[i]).spec_meta()@
                        != old(self).coordinator.pending()[0].spec_meta()@
            },
    {
        self.coordinator.take_task()
    }

    /// Whether the store already serves the checksum a task names, so
    /// the worker can skip the download. A hit is never reported for a
    /// checksum the store does not hold; for a checksum it lacks
    /// outright, no hit is possible.
    pub fn worker_precheck(&self, task: &Task) -> (r: bool)
        ensures
            r ==> self.store@.dom().contains(task.spec_meta().checksum@) && sha256_of(
                self.store@[task.spec_meta().checksum@],
            ) == task.spec_meta().checksum@,
            !self.store@.dom().contains(task.spec_meta().checksum@) ==> r == false,
    {
        match self.store.get(&task.metadata().checksum) {
            Some(_) => true,
            None => false,
        }
    }

    /// Finish a taken task with what the worker's outside work came to:
    /// verify and persist the bytes of a download, release the task's
    /// waiters unconditionally, and drop its table entry. The caller
    /// must have taken the task off the queue.
    pub fn complete_task(&mut self, task: Task, event: WorkerEvent) -> (r: TaskReport)
        requires
            old(self).wf(),
            old(self).coordinator.running().contains(task.spec_meta()@),
            forall|i: int|
                0 <= i < old(self).coordinator.pending().len() ==> (#[trigger] old(
                    self,
                ).coordinator.pending()[i]).spec_meta()@ != task.spec_meta()@,
        ensures
            final(self).wf(),
            final(self).snapshot == old(self).snapshot,
            final(self).coordinator.cap() == old(self).coordinator.cap(),
            final(self).coordinator.pending() == old(self).coordinator.pending(),
            !final(self).coordinator.table_has(task.spec_meta()@),
            !final(self).coordinator.running().contains(task.spec_meta()@),
            r.entry_was_present,
            event is AlreadyCached ==> r.result == Ok::<usize, Error>(0) && final(self).store
                == old(self).store,
            event is FetchFailed ==> r.result == Err::<usize, Error>(Error::UpstreamFetch)
                && final(self).store == old(self).store,
            event matches WorkerEvent::Fetched(bytes) ==> {
                &&& sha256_of(bytes@) != task.spec_meta().checksum@ ==> r.result == Err::<
                    usize,
                    Error,
                >(Error::ChecksumMismatch) && final(self).store == old(self).store
                &&& sha256_of(bytes@) == task.spec_meta().checksum@ && r.result is Ok ==> {
                    &&& r.result == Ok::<usize, Error>(bytes.len())
                    &&& final(self).store@ == old(self).store@.insert(
                        task.spec_meta().checksum@,
                        bytes@,
                    )
                    &&& r.replaced == old(self).store@.dom().contains(task.spec_meta().checksum@)
                }
                &&& sha256_of(bytes@) == task.spec_meta().checksum@ && r.result is Err ==> {
                    &&& r.result == Err::<usize, Error>(Error::StoreError)
                    &&& forall|k: Seq<u8>| #[trigger]
                        final(self).store@.dom().contains(k) ==> (k == task.spec_meta().checksum@
                            && final(self).store@[k] == bytes@) || (old(
                            self,
                        ).store@.dom().contains(k) && final(self).store@[k] == old(self).store@[k])
                }
            },
    {
        let mut replaced = false;
        let result: Result<usize, Error> = match event {
            WorkerEvent::AlreadyCached => Ok(0),
            WorkerEvent::FetchFailed => Err(Error::UpstreamFetch),
            WorkerEvent::Fetched(bytes) => {
                let digest = sha256(bytes.as_slice());
                if !bytes_eq(digest.as_slice(), task.metadata().checksum.as_slice()) {
                    Err(Error::ChecksumMismatch)
                } else {
                    let n = bytes.len();
                    match self.store.put(&task.metadata().checksum, &bytes) {
                        Ok(was_there) => {
                            replaced = was_there;
                            Ok(n)
                        },
                        Err(e) => Err(e),
                    }
                }
            },
        };
        let meta = task.finish();
        let entry_was_present = self.coordinator.remove_entry(&meta);
        TaskReport { result, replaced, entry_was_present }
    }

    /// The releases the snapshot records whose tarball the store did
    /// not hand back: what the pre-fetcher submits, in record order.
    /// Everything listed is a record of the snapshot, and every record
    /// whose checksum the store lacks outright is listed.
    pub fn prefetch_list(&self) -> (r: Vec<CrateMetadata>)
        ensures
            forall|i: int|
                #![trigger r@[i]]
                0 <= i < r@.len() ==> self.snapshot.records_view().contains(
                    (((r@[i])@.0, r@[i]@.1), r@[i]@.2),
                ),
            forall|j: int|
                0 <= j < self.snapshot.records_view().len() && !self.store@.dom().contains(
                    (#[trigger] self.snapshot.records_view()[j]).1,
                ) ==> r@.map_values(|m: CrateMetadata| m@).contains(
                    (
                        self.snapshot.records_view()[j].0.0,
                        self.snapshot.records_view()[j].0.1,
                        self.snapshot.records_view()[j].1,
                    ),
                ),
    {
        let mut r: Vec<CrateMetadata> = Vec::new();
        let n = self.snapshot.record_count();
        let mut i: usize = 0;
        while i < n
            invariant
                i <= n,
                n == self.snapshot.records_view().len(),
                forall|a: int|
                    #![trigger r@[a]]
                    0 <= a < r@.len() ==> self.snapshot.records_view().contains(
                        (((r@[a])@.0, r@[a]@.1), r@[a]@.2),
                    ),
                forall|j: int|
                    0 <= j < i && !self.store@.dom().contains(
                        (#[trigger] self.snapshot.records_view()[j]).1,
                    ) ==> r@.map_values(|m: CrateMetadata| m@).contains(
                        (
                            self.snapshot.records_view()[j].0.0,
                            self.snapshot.records_view()[j].0.1,
                            self.snapshot.records_view()[j].1,
                        ),
                    ),
            decreases n - i,
        {
            let ghost rv = self.snapshot.records_view();
            let (ident, checksum) = self.snapshot.record_at(i);
            let cached = match self.store.get(&checksum) {
                Some(_) => true,
                None => false,
            };
            if !cached {
                let meta = CrateMetadata { name: ident.name, version: ident.version, checksum };
                let ghost prev = r@;
                proof {
                    assert(rv[i as int] == ((meta@.0, meta@.1), meta@.2));
                    assert(rv.contains(((meta@.0, meta@.1), meta@.2)));
                }
                r.push(meta);
                proof {
                    let vs = r@.map_values(|m: CrateMetadata| m@);
                    let prev_vs = prev.map_values(|m: CrateMetadata| m@);
                    assert(vs =~= prev_vs.push(meta@));
                    assert forall|j: int|
                        0 <= j < i + 1 && !self.store@.dom().contains((#[trigger] rv[j]).1) implies
                        r@.map_values(|m: CrateMetadata| m@).contains(
                        (rv[j].0.0, rv[j].0.1, rv[j].1),
                    ) by {
                        if j == i {
                            assert(vs[vs.len() - 1] == meta@);
                            assert(meta@ == (rv[j].0.0, rv[j].0.1, rv[j].1));
                        } else {
                            let w = choose|w: int|
                                0 <= w < prev_vs.len() && prev_vs[w] == (
                                rv[j].0.0,
                                rv[j].0.1,
                                rv[j].1,
                                );
                            assert(vs[w] == (rv[j].0.0, rv[j].0.1, rv[j].1));
                        }
                    }
                }
            } else {
                proof {
                    assert(self.store@.dom().contains(rv[i as int].1));
                    assert forall|j: int|
                        0 <= j < i + 1 && !self.store@.dom().contains((#[trigger] rv[j]).1) implies
                        r@.map_values(|m: CrateMetadata| m@).contains(
                        (rv[j].0.0, rv[j].0.1, rv[j].1),
                    ) by {
                        assert(j < i);
                    }
                }
            }
            i = i + 1;
        }
        r
    }
}

} // verus!


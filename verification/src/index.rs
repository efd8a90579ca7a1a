use vstd::prelude::*;
use vstd::string::StrSliceExecFns;

use crate::crates::{clone_bytes, ident_eq, CrateIdentity};
use crate::utils::{decode_hex, is_hex_seq, spec_hex_decode};

verus! {

/// What one line of an index file records, as the outside JSON parser
/// reads it: the string fields name, vers and cksum, where the line is
/// a JSON object carrying all three. What it yields depends on the
/// bytes of the line alone.
pub uninterp spec fn json_line_fields(line: Seq<u8>) -> Option<(Seq<char>, Seq<char>, Seq<char>)>;

/// Relies on serde_json: from_slice to a Value, Value::get and
/// Value::as_str, which together read the name, vers and cksum string
/// fields of a JSON object.
#[verifier::external_body]
fn extract_index_line(line: &[u8]) -> (r: Option<(String, String, String)>)
    ensures
        match r {
            Some(t) => json_line_fields(line@) == Some((t.0@, t.1@, t.2@)),
            None => json_line_fields(line@) is None,
        },
{
    let v: serde_json::Value = match serde_json::from_slice(line) {
        Ok(v) => v,
        Err(_) => {
            return None;
        },
    };
    let name = v.get("name")?.as_str()?.to_string();
    let vers = v.get("vers")?.as_str()?.to_string();
    let cksum = v.get("cksum")?.as_str()?.to_string();
    Some((name, vers, cksum))
}

/// The release one line records: its identity and checksum, provided
/// the line parses and its cksum field is 64 hexadecimal digits.
pub open spec fn spec_line_record(line: Seq<u8>) -> Option<((Seq<char>, Seq<char>), Seq<u8>)> {
    match json_line_fields(line) {
        Some((name, vers, ck)) => if ck.len() == 64 && is_hex_seq(ck) {
            Some(((name, vers), spec_hex_decode(ck)))
        } else {
            None
        },
        None => None,
    }
}

/// Decode one index line into an identity and its checksum bytes. A
/// line that does not parse, or whose checksum is not 64 hexadecimal
/// digits, yields nothing and is skipped by the snapshot build.
pub fn parse_index_line(line: &[u8]) -> (r: Option<(CrateIdentity, Vec<u8>)>)
    ensures
        r matches Some(p) ==> spec_line_record(line@) == Some((p.0@, p.1@)),
        r is None ==> spec_line_record(line@) is None,
{
    match extract_index_line(line) {
        Some((name, vers, ck)) => {
            if ck.as_str().unicode_len() != 64 {
                return None;
            }
            match decode_hex(ck.as_str()) {
                Some(bytes) => Some((CrateIdentity { name, version: vers }, bytes)),
                None => None,
            }
        },
        None => None,
    }
}

/// The chunks of a byte sequence between newline bytes. The newline
/// bytes themselves belong to no chunk; the text after the last
/// newline is the final chunk, so there is always at least one.
pub open spec fn spec_split_lines(b: Seq<u8>) -> Seq<Seq<u8>>
    decreases b.len(),
{
    if b.len() == 0 {
        seq![Seq::empty()]
    } else if b.last() == 10 {
        spec_split_lines(b.drop_last()).push(Seq::empty())
    } else {
        let r = spec_split_lines(b.drop_last());
        r.update(r.len() - 1, r.last().push(b.last()))
    }
}

/// Split a byte buffer into its lines at each newline byte.
pub fn split_lines(bytes: &Vec<u8>) -> (r: Vec<Vec<u8>>)
    ensures
        r@.map_values(|v: Vec<u8>| v@) == spec_split_lines(bytes@),
{
    let mut out: Vec<Vec<u8>> = Vec::new();
    let mut cur: Vec<u8> = Vec::new();
    let n = bytes.len();
    let mut i: usize = 0;
    proof {
        assert(bytes@.take(0) =~= Seq::<u8>::empty());
        assert(out@.map_values(|v: Vec<u8>| v@) + seq![cur@] =~= seq![Seq::<u8>::empty()]);
    }
    while i < n
        invariant
            i <= n,
            n == bytes@.len(),
            spec_split_lines(bytes@.take(i as int)) == out@.map_values(|v: Vec<u8>| v@) + seq![
                cur@,
            ],
        decreases n - i,
    {
        proof {
            assert(bytes@.take(i + 1).drop_last() =~= bytes@.take(i as int));
            assert(bytes@.take(i + 1).last() == bytes@[i as int]);
        }
        let ghost prev_out = out@;
        let ghost prev_cur = cur@;
        let b = bytes[i];
        if b == 10 {
            out.push(cur);
            cur = Vec::new();
            proof {
                assert(out@.map_values(|v: Vec<u8>| v@) =~= prev_out.map_values(
                    |v: Vec<u8>| v@,
                ).push(prev_cur));
                assert(spec_split_lines(bytes@.take(i + 1)) =~= out@.map_values(|v: Vec<u8>| v@)
                    + seq![cur@]);
            }
        } else {
            cur.push(b);
            proof {
                let m = prev_out.map_values(|v: Vec<u8>| v@);
                let r = m + seq![prev_cur];
                assert(r.last() == prev_cur);
                assert(r.update(r.len() - 1, prev_cur.push(b)) =~= m + seq![cur@]);
                assert(spec_split_lines(bytes@.take(i + 1)) =~= out@.map_values(|v: Vec<u8>| v@)
                    + seq![cur@]);
            }
        }
        i = i + 1;
    }
    proof {
        assert(bytes@.take(n as int) =~= bytes@);
    }
    let ghost prev_out = out@;
    let ghost prev_cur = cur@;
    out.push(cur);
    proof {
        assert(out@.map_values(|v: Vec<u8>| v@) =~= prev_out.map_values(|v: Vec<u8>| v@) + seq![
            prev_cur,
        ]);
    }
    out
}

/// The releases recorded by a sequence of lines, in order, skipping
/// every line that records none.
pub open spec fn spec_lines_records(ls: Seq<Seq<u8>>) -> Seq<((Seq<char>, Seq<char>), Seq<u8>)>
    decreases ls.len(),
{
    if ls.len() == 0 {
        Seq::empty()
    } else {
        spec_lines_records(ls.drop_last()) + (match spec_line_record(ls.last()) {
            Some(r) => seq![r],
            None => Seq::empty(),
        })
    }
}

/// The releases recorded by one index file.
pub open spec fn spec_file_records(b: Seq<u8>) -> Seq<((Seq<char>, Seq<char>), Seq<u8>)> {
    spec_lines_records(spec_split_lines(b))
}

/// The releases recorded by a sequence of index files, in file order.
pub open spec fn spec_files_records(fs: Seq<Seq<u8>>) -> Seq<((Seq<char>, Seq<char>), Seq<u8>)>
    decreases fs.len(),
{
    if fs.len() == 0 {
        Seq::empty()
    } else {
        spec_files_records(fs.drop_last()) + spec_file_records(fs.last())
    }
}

/// The mapping a sequence of records builds up: each record is
/// inserted in order, so a later record for the same identity wins.
pub open spec fn map_of_records(rs: Seq<((Seq<char>, Seq<char>), Seq<u8>)>) -> Map<
    (Seq<char>, Seq<char>),
    Seq<u8>,
>
    decreases rs.len(),
{
    if rs.len() == 0 {
        Map::empty()
    } else {
        map_of_records(rs.drop_last()).insert(rs.last().0, rs.last().1)
    }
}

/// What a mapping holds at a key, if anything.
pub open spec fn spec_get(
    m: Map<(Seq<char>, Seq<char>), Seq<u8>>,
    k: (Seq<char>, Seq<char>),
) -> Option<Seq<u8>> {
    if m.dom().contains(k) {
        Some(m[k])
    } else {
        None
    }
}

/// An immutable snapshot of the index: the identity-to-checksum
/// mapping built from the records of the index files. Its view is that
/// mapping; readers of one snapshot always see one consistent mapping.
pub struct IndexSnapshot {
    entries: Vec<(CrateIdentity, Vec<u8>)>,
}

impl View for IndexSnapshot {
    type V = Map<(Seq<char>, Seq<char>), Seq<u8>>;

    open spec fn view(&self) -> Self::V {
        map_of_records(self.records_view())
    }
}

impl IndexSnapshot {
    /// The records this snapshot was built from, in insertion order.
    pub closed spec fn records_view(&self) -> Seq<((Seq<char>, Seq<char>), Seq<u8>)> {
        self.entries@.map_values(|e: (CrateIdentity, Vec<u8>)| (e.0@, e.1@))
    }

    /// Every checksum the snapshot records is a full SHA-256 digest.
    pub open spec fn wf(&self) -> bool {
        forall|i: int|
            0 <= i < self.records_view().len() ==> (#[trigger] self.records_view()[i]).1.len()
                == 32
    }

    /// An empty snapshot: no release is known.
    pub fn new() -> (r: IndexSnapshot)
        ensures
            r.records_view() == Seq::<((Seq<char>, Seq<char>), Seq<u8>)>::empty(),
            r@ == Map::<(Seq<char>, Seq<char>), Seq<u8>>::empty(),
            r.wf(),
    {
        let r = IndexSnapshot { entries: Vec::new() };
        proof {
            assert(r.records_view() =~= Seq::<((Seq<char>, Seq<char>), Seq<u8>)>::empty());
        }
        r
    }

    /// Whether every recorded checksum is a full digest, so a caller
    /// that assembles a context can test the invariant at run time.
    pub fn is_wf(&self) -> (r: bool)
        ensures
            r == self.wf(),
    {
        let n = self.entries.len();
        let mut i: usize = 0;
        while i < n
            invariant
                i <= n,
                n == self.records_view().len(),
                forall|j: int| 0 <= j < i ==> (#[trigger] self.records_view()[j]).1.len() == 32,
            decreases n - i,
        {
            proof {
                assert(self.records_view()[i as int].1 == self.entries@[i as int].1@);
            }
            if self.entries[i].1.len() != 32 {
                return false;
            }
            i = i + 1;
        }
        true
    }

    /// How many records the snapshot holds.
    pub fn record_count(&self) -> (n: usize)
        ensures
            n == self.records_view().len(),
    {
        self.entries.len()
    }

    /// A copy of one record: its identity and checksum.
    pub fn record_at(&self, i: usize) -> (r: (CrateIdentity, Vec<u8>))
        requires
            i < self.records_view().len(),
        ensures
            (r.0@, r.1@) == self.records_view()[i as int],
    {
        let e = &self.entries[i];
        (e.0.clone(), clone_bytes(&e.1))
    }

    /// Record one release. A later record for the same identity takes
    /// precedence over an earlier one.
    pub fn add(&mut self, ident: CrateIdentity, checksum: Vec<u8>)
        requires
            checksum@.len() == 32,
        ensures
            old(self).wf() ==> final(self).wf(),
            final(self).records_view() == old(self).records_view().push((ident@, checksum@)),
            final(self)@ == old(self)@.insert(ident@, checksum@),
    {
        self.entries.push((ident, checksum));
        proof {
            assert(self.records_view() =~= old(self).records_view().push((ident@, checksum@)));
            assert(self.records_view().drop_last() =~= old(self).records_view());
        }
    }

    /// The checksum the snapshot maps an identity to, if any.
    pub fn lookup(&self, ident: &CrateIdentity) -> (r: Option<Vec<u8>>)
        ensures
            r is Some <==> self@.dom().contains(ident@),
            r matches Some(c) ==> c@ == self@[ident@],
            self.wf() ==> (r matches Some(c) ==> c@.len() == 32),
    {
        let ghost rs = self.records_view();
        let ghost k = ident@;
        let n = self.entries.len();
        let mut i: usize = n;
        proof {
            assert(rs.take(n as int) =~= rs);
        }
        while i > 0
            invariant
                i <= n,
                n == self.entries@.len(),
                rs == self.records_view(),
                rs.len() == n,
                k == ident@,
                spec_get(self@, k) == spec_get(map_of_records(rs.take(i as int)), k),
            decreases i,
        {
            proof {
                assert(rs.take(i as int).drop_last() =~= rs.take(i - 1));
                assert(rs.take(i as int).last() == rs[i - 1]);
                assert(rs[i - 1] == (self.entries@[i - 1].0@, self.entries@[i - 1].1@));
            }
            let e = &self.entries[i - 1];
            if ident_eq(&e.0, ident) {
                return Some(clone_bytes(&e.1));
            }
            i = i - 1;
        }
        proof {
            assert(rs.take(0) =~= Seq::<((Seq<char>, Seq<char>), Seq<u8>)>::empty());
        }
        None
    }

    /// Record every release that the lines of one index file carry.
    /// Lines that record nothing are skipped.
    pub fn add_file(&mut self, bytes: &Vec<u8>)
        ensures
            final(self).records_view() == old(self).records_view() + spec_file_records(bytes@),
            old(self).wf() ==> final(self).wf(),
    {
        let lines = split_lines(bytes);
        let ghost ls = spec_split_lines(bytes@);
        let m = lines.len();
        let mut j: usize = 0;
        proof {
            assert(ls.take(0) =~= Seq::<Seq<u8>>::empty());
            assert(self.records_view() + Seq::<((Seq<char>, Seq<char>), Seq<u8>)>::empty()
                =~= self.records_view());
        }
        while j < m
            invariant
                j <= m,
                m == lines@.len(),
                lines@.map_values(|v: Vec<u8>| v@) == ls,
                self.records_view() == old(self).records_view() + spec_lines_records(
                    ls.take(j as int),
                ),
                old(self).wf() ==> self.wf(),
            decreases m - j,
        {
            proof {
                assert(ls.take(j + 1).drop_last() =~= ls.take(j as int));
                assert(ls.take(j + 1).last() == ls[j as int]);
                assert(ls[j as int] == lines@[j as int]@);
            }
            let ghost before = self.records_view();
            match parse_index_line(lines[j].as_slice()) {
                Some((ident, checksum)) => {
                    proof {
                        assert(spec_line_record(ls[j as int]) == Some((ident@, checksum@)));
                        let ck = json_line_fields(ls[j as int])->Some_0.2;
                        assert(checksum@ == spec_hex_decode(ck) && ck.len() == 64);
                        crate::utils::lemma_hex_decode_len(ck);
                        assert(checksum@.len() == 32);
                    }
                    self.add(ident, checksum);
                    proof {
                        assert(before.push((ident@, checksum@)) =~= before + seq![
                            (ident@, checksum@),
                        ]);
                        assert(self.records_view() =~= old(self).records_view()
                            + spec_lines_records(ls.take(j + 1)));
                    }
                },
                None => {
                    proof {
                        assert(spec_lines_records(ls.take(j + 1)) =~= spec_lines_records(
                            ls.take(j as int),
                        ));
                    }
                },
            }
            j = j + 1;
        }
        proof {
            assert(ls.take(m as int) =~= ls);
        }
    }
}

/// Build a fresh snapshot from the contents of the index files, in the
/// order they are handed in: the records of later files take
/// precedence at equal identities.
pub fn build_snapshot(files: &Vec<Vec<u8>>) -> (r: IndexSnapshot)
    ensures
        r.records_view() == spec_files_records(files@.map_values(|f: Vec<u8>| f@)),
        r.wf(),
{
    let ghost fs = files@.map_values(|f: Vec<u8>| f@);
    let mut snap = IndexSnapshot::new();
    let n = files.len();
    let mut i: usize = 0;
    proof {
        assert(fs.take(0) =~= Seq::<Seq<u8>>::empty());
    }
    while i < n
        invariant
            i <= n,
            n == files@.len(),
            fs == files@.map_values(|f: Vec<u8>| f@),
            snap.records_view() == spec_files_records(fs.take(i as int)),
            snap.wf(),
        decreases n - i,
    {
        proof {
            assert(fs.take(i + 1).drop_last() =~= fs.take(i as int));
            assert(fs.take(i + 1).last() == fs[i as int]);
            assert(fs[i as int] == files@[i as int]@);
        }
        snap.add_file(&files[i]);
        i = i + 1;
    }
    proof {
        assert(fs.take(n as int) =~= fs);
    }
    snap
}

/// Two lookups of one snapshot, with no swap between them, answer the
/// same: a lookup's verdict is a function of the snapshot's mapping
/// and the key alone.
pub proof fn lemma_lookup_stable(
    m: Map<(Seq<char>, Seq<char>), Seq<u8>>,
    k: (Seq<char>, Seq<char>),
    r1: Option<Seq<u8>>,
    r2: Option<Seq<u8>>,
)
    requires
        r1 == spec_get(m, k),
        r2 == spec_get(m, k),
    ensures
        r1 == r2,
{
}

/// A snapshot swap is wholesale: after it, every lookup answers from
/// the new mapping alone, and a key carried unchanged from the old
/// mapping keeps its verdict. A reader never sees a mix of the two
/// mappings, nor a key flicker within a single swap.
pub proof fn lemma_swap_wholesale(
    old_m: Map<(Seq<char>, Seq<char>), Seq<u8>>,
    new_m: Map<(Seq<char>, Seq<char>), Seq<u8>>,
    k: (Seq<char>, Seq<char>),
)
    ensures
        spec_get(new_m, k) is Some <==> new_m.dom().contains(k),
        old_m.dom().contains(k) && new_m.dom().contains(k) && old_m[k] == new_m[k] ==> spec_get(
            new_m,
            k,
        ) == spec_get(old_m, k) && spec_get(new_m, k) == Some(old_m[k]),
{
}

/// What an outside case-folding pass makes of a name. The index file
/// paths are derived from the folded name.
pub uninterp spec fn lower_of(s: Seq<char>) -> Seq<char>;

/// Relies on str::to_lowercase: the result depends on the characters
/// alone, and an empty string folds to an empty string.
#[verifier::external_body]
fn lowercase(s: &str) -> (r: String)
    ensures
        r@ == lower_of(s@),
        s@.len() == 0 ==> r@.len() == 0,
{
    s.to_lowercase()
}

/// Where the index clone keeps the file for a package whose lowercased
/// name is `n`: `1/n`, `2/n` and `3/n[0]/n` for the three shortest
/// lengths, `n[0..2]/n[2..4]/n` from four characters on, and no path
/// at all for an empty name.
pub open spec fn spec_index_path(n: Seq<char>) -> Option<Seq<char>> {
    if n.len() == 0 {
        None
    } else if n.len() == 1 {
        Some("1/"@ + n)
    } else if n.len() == 2 {
        Some("2/"@ + n)
    } else if n.len() == 3 {
        Some("3/"@ + n.take(1) + "/"@ + n)
    } else {
        Some(n.take(2) + "/"@ + n.subrange(2, 4) + "/"@ + n)
    }
}

/// The path, relative to the index clone, of the file that records a
/// package's releases.
pub fn index_path(name: &str) -> (r: Option<String>)
    ensures
        match r {
            Some(p) => spec_index_path(lower_of(name@)) == Some(p@),
            None => spec_index_path(lower_of(name@)) is None,
        },
        name@.len() == 0 ==> r is None,
{
    proof {
        reveal_strlit("1/");
        reveal_strlit("2/");
        reveal_strlit("3/");
        reveal_strlit("/");
    }
    let lower = lowercase(name);
    let n = lower.as_str().unicode_len();
    if n == 0 {
        None
    } else if n == 1 {
        Some(String::from_str("1/").concat(lower.as_str()))
    } else if n == 2 {
        Some(String::from_str("2/").concat(lower.as_str()))
    } else if n == 3 {
        let mut out = String::from_str("3/");
        out.append(lower.as_str().substring_char(0, 1));
        out.append("/");
        out.append(lower.as_str());
        proof {
            assert(lower@.subrange(0, 1) =~= lower@.take(1));
            assert(out@ =~= "3/"@ + lower@.take(1) + "/"@ + lower@);
        }
        Some(out)
    } else {
        let mut out = String::from_str(lower.as_str().substring_char(0, 2));
        out.append("/");
        out.append(lower.as_str().substring_char(2, 4));
        out.append("/");
        out.append(lower.as_str());
        proof {
            assert(lower@.subrange(0, 2) =~= lower@.take(2));
            assert(out@ =~= lower@.take(2) + "/"@ + lower@.subrange(2, 4) + "/"@ + lower@);
        }
        Some(out)
    }
}

/// Whether a directory entry of the index clone belongs to the
/// snapshot walk: any name with a dot in it is skipped, which filters
/// out the version-control bookkeeping and the configuration file.
pub fn is_index_entry_name(name: &str) -> (r: bool)
    ensures
        r == !(exists|i: int| 0 <= i < name@.len() && name@[i] == '.'),
{
    let n = name.unicode_len();
    let mut i: usize = 0;
    while i < n
        invariant
            i <= n,
            n == name@.len(),
            forall|j: int| 0 <= j < i ==> name@[j] != '.',
        decreases n - i,
    {
        if name.get_char(i) == '.' {
            return false;
        }
        i = i + 1;
    }
    true
}

/// One operation issued to the version-control tool that maintains the
/// index clone. The tool runs outside the library; these values say
/// exactly which operations are asked for and in which order.
#[derive(Debug)]
pub enum VcsOp {
    /// Clone the upstream index into the given directory, under the
    /// remote name `upstream`.
    CloneUpstream { url: String, dir: String },
    /// Add a second remote named `origin` at the given URL.
    AddOriginRemote { url: String },
    /// Set one local configuration key of the clone.
    SetConfig { key: String, value: String },
    /// Commit all changes with the given message and author.
    CommitAll { message: String, author: String },
    /// Fetch the `upstream` remote, quietly.
    FetchUpstream,
    /// Rebase the local `master` onto `upstream/master`, quietly.
    RebaseMaster,
    /// Force-push the local `master` to `origin`, quietly.
    PushOrigin,
}

/// One step of first-run initialization of the index clone.
#[derive(Debug)]
pub enum InitStep {
    /// Issue one operation to the version-control tool.
    Vcs(VcsOp),
    /// Rewrite config.json in the clone: set its `dl` and `api` fields
    /// to the configured values, preserving every other field.
    RewriteConfig,
}

/// The steps of first-run initialization: nothing at all when the
/// clone already exists, else clone the upstream, add the origin
/// remote, rewrite config.json, set the committer identity, and commit
/// the rewrite.
pub fn plan_init(clone_present: bool, upstream: &str, index_dir: &str, origin: &str) -> (r: Vec<
    InitStep,
>)
    ensures
        clone_present ==> r@.len() == 0,
        !clone_present ==> {
            &&& r@.len() == 6
            &&& (r@[0] matches InitStep::Vcs(VcsOp::CloneUpstream { url, dir }) && url@
                == upstream@ && dir@ == index_dir@)
            &&& (r@[1] matches InitStep::Vcs(VcsOp::AddOriginRemote { url }) && url@ == origin@)
            &&& r@[2] is RewriteConfig
            &&& (r@[3] matches InitStep::Vcs(VcsOp::SetConfig { key, value }) && key@
                == "user.email"@ && value@ == "dcjanus@dcjanus.com"@)
            &&& (r@[4] matches InitStep::Vcs(VcsOp::SetConfig { key, value }) && key@
                == "user.name"@ && value@ == "DCjanus"@)
            &&& (r@[5] matches InitStep::Vcs(VcsOp::CommitAll { message, author }) && message@
                == "update download url"@ && author@ == "DCjanus<dcjanus@dcjanus.com>"@)
        },
{
    let mut r: Vec<InitStep> = Vec::new();
    if clone_present {
        return r;
    }
    r.push(
        InitStep::Vcs(
            VcsOp::CloneUpstream {
                url: String::from_str(upstream),
                dir: String::from_str(index_dir),
            },
        ),
    );
    r.push(InitStep::Vcs(VcsOp::AddOriginRemote { url: String::from_str(origin) }));
    r.push(InitStep::RewriteConfig);
    r.push(
        InitStep::Vcs(
            VcsOp::SetConfig {
                key: String::from_str("user.email"),
                value: String::from_str("dcjanus@dcjanus.com"),
            },
        ),
    );
    r.push(
        InitStep::Vcs(
            VcsOp::SetConfig {
                key: String::from_str("user.name"),
                value: String::from_str("DCjanus"),
            },
        ),
    );
    r.push(
        InitStep::Vcs(
            VcsOp::CommitAll {
                message: String::from_str("update download url"),
                author: String::from_str("DCjanus<dcjanus@dcjanus.com>"),
            },
        ),
    );
    r
}

/// The operations of one synchronizer pass, in order: fetch the
/// upstream, rebase the local branch, push to the origin.
pub fn plan_sync() -> (r: Vec<VcsOp>)
    ensures
        r@.len() == 3,
        r@[0] is FetchUpstream,
        r@[1] is RebaseMaster,
        r@[2] is PushOrigin,
{
    let mut r: Vec<VcsOp> = Vec::new();
    r.push(VcsOp::FetchUpstream);
    r.push(VcsOp::RebaseMaster);
    r.push(VcsOp::PushOrigin);
    r
}

/// What a synchronizer pass does once its pull and push have been
/// tried.
#[derive(Debug, Clone, Copy, PartialEq, Eq, Structural)]
pub enum SyncOutcome {
    /// Both succeeded: rebuild the snapshot and swap it in.
    RefreshSnapshot,
    /// Something failed: keep serving the previous snapshot and try
    /// again next cycle. A failed pass never ends the loop.
    KeepPrevious,
}

/// Decide a synchronizer pass: only a pass whose pull and push both
/// succeeded refreshes the snapshot; any failure keeps the previous
/// one.
pub fn sync_decision(pull_ok: bool, push_ok: bool) -> (r: SyncOutcome)
    ensures
        r == SyncOutcome::RefreshSnapshot <==> pull_ok && push_ok,
{
    if pull_ok && push_ok {
        SyncOutcome::RefreshSnapshot
    } else {
        SyncOutcome::KeepPrevious
    }
}

/// Where a synchronizer pass stands after one of its operations came
/// back: run the next operation, refresh the snapshot once the last
/// one succeeded, or break the pass off on the first failure and keep
/// the previous snapshot serving.
#[derive(Debug, Clone, Copy, PartialEq, Eq, Structural)]
pub enum SyncStep {
    RunNext(usize),
    Refresh,
    Bail,
}

/// Gate the synchronizer pass: operation `done` of the three-step plan
/// just came back with `ok`. A later operation runs only when every
/// earlier one succeeded; only a fully successful pass refreshes.
pub fn sync_advance(done: usize, ok: bool) -> (r: SyncStep)
    requires
        done < 3,
    ensures
        !ok ==> r == SyncStep::Bail,
        ok && done < 2 ==> r == SyncStep::RunNext((done + 1) as usize),
        ok && done == 2 ==> r == SyncStep::Refresh,
{
    if !ok {
        SyncStep::Bail
    } else if done < 2 {
        SyncStep::RunNext(done + 1)
    } else {
        SyncStep::Refresh
    }
}

/// Whether an operation runs inside the clone's directory; only the
/// initial clone itself runs outside it.
pub fn runs_in_clone(op: &VcsOp) -> (r: bool)
    ensures
        r == !(op is CloneUpstream),
{
    match op {
        VcsOp::CloneUpstream { .. } => false,
        _ => true,
    }
}

/// The exact argument list handed to the version-control tool for one
/// operation, the tool's own name aside.
pub fn vcs_argv(op: &VcsOp) -> (r: Vec<String>)
    ensures
        op matches VcsOp::CloneUpstream { url, dir } ==> r@.len() == 5 && r@[0]@ == "clone"@
            && r@[1]@ == url@ && r@[2]@ == dir@ && r@[3]@ == "--origin"@ && r@[4]@ == "upstream"@,
        op matches VcsOp::AddOriginRemote { url } ==> r@.len() == 4 && r@[0]@ == "remote"@
            && r@[1]@ == "add"@ && r@[2]@ == "origin"@ && r@[3]@ == url@,
        op matches VcsOp::SetConfig { key, value } ==> r@.len() == 4 && r@[0]@ == "config"@
            && r@[1]@ == "--local"@ && r@[2]@ == key@ && r@[3]@ == value@,
        op matches VcsOp::CommitAll { message, author } ==> r@.len() == 6 && r@[0]@ == "commit"@
            && r@[1]@ == "--all"@ && r@[2]@ == "--message"@ && r@[3]@ == message@ && r@[4]@
            == "--author"@ && r@[5]@ == author@,
        op is FetchUpstream ==> r@.len() == 3 && r@[0]@ == "fetch"@ && r@[1]@ == "upstream"@
            && r@[2]@ == "--quiet"@,
        op is RebaseMaster ==> r@.len() == 4 && r@[0]@ == "rebase"@ && r@[1]@
            == "upstream/master"@ && r@[2]@ == "master"@ && r@[3]@ == "--quiet"@,
        op is PushOrigin ==> r@.len() == 4 && r@[0]@ == "push"@ && r@[1]@ == "--force"@ && r@[2]@
            == "origin"@ && r@[3]@ == "--quiet"@,
{
    let mut r: Vec<String> = Vec::new();
    match op {
        VcsOp::CloneUpstream { url, dir } => {
            r.push(String::from_str("clone"));
            r.push(url.clone());
            r.push(dir.clone());
            r.push(String::from_str("--origin"));
            r.push(String::from_str("upstream"));
        },
        VcsOp::AddOriginRemote { url } => {
            r.push(String::from_str("remote"));
            r.push(String::from_str("add"));
            r.push(String::from_str("origin"));
            r.push(url.clone());
        },
        VcsOp::SetConfig { key, value } => {
            r.push(String::from_str("config"));
            r.push(String::from_str("--local"));
            r.push(key.clone());
            r.push(value.clone());
        },
        VcsOp::CommitAll { message, author } => {
            r.push(String::from_str("commit"));
            r.push(String::from_str("--all"));
            r.push(String::from_str("--message"));
            r.push(message.clone());
            r.push(String::from_str("--author"));
            r.push(author.clone());
        },
        VcsOp::FetchUpstream => {
            r.push(String::from_str("fetch"));
            r.push(String::from_str("upstream"));
            r.push(String::from_str("--quiet"));
        },
        VcsOp::RebaseMaster => {
            r.push(String::from_str("rebase"));
            r.push(String::from_str("upstream/master"));
            r.push(String::from_str("master"));
            r.push(String::from_str("--quiet"));
        },
        VcsOp::PushOrigin => {
            r.push(String::from_str("push"));
            r.push(String::from_str("--force"));
            r.push(String::from_str("origin"));
            r.push(String::from_str("--quiet"));
        },
    }
    r
}

/// Advance the pre-fetcher's failure count by one submission result:
/// a success resets it; a failure counts, and once more than ten
/// failures have come in a row the current pass is broken off. Returns
/// the new count and whether the pass goes on.
pub fn prefetch_step(fail_count: u32, ok: bool) -> (r: (u32, bool))
    ensures
        ok ==> r == (0u32, true),
        !ok && fail_count < 10 ==> r == (((fail_count + 1) as u32), true),
        !ok && fail_count >= 10 ==> r == (11u32, false),
{
    if ok {
        (0, true)
    } else if fail_count < 10 {
        (fail_count + 1, true)
    } else {
        (11, false)
    }
}

} // verus!

use vstd::prelude::*;
use vstd::string::*;
use crate::media::{MediaFile, MediaMetadata, MediaStatus, MediaType};
use crate::text::str_eq;

verus! {

/// Target size class for generated proxies.
#[derive(Clone, Copy, Debug, PartialEq, Eq, Structural)]
pub enum ProxyResolution {
    Half,
    Quarter,
    Custom(u32, u32),
}

/// The settings one import pipeline runs with; captured at import time.
#[derive(Debug)]
pub struct ProxySettings {
    pub resolution: ProxyResolution,
    pub codec: String,
    pub quality: u32,
}

impl Clone for ProxySettings {
    fn clone(&self) -> (r: Self)
        ensures
            r == *self,
    {
        ProxySettings {
            resolution: self.resolution,
            codec: self.codec.clone(),
            quality: self.quality,
        }
    }
}

/// The registry of imported media: the authoritative mapping from identifier
/// to record, the tombstones of removed identifiers, and the proxy settings
/// applied to newly started imports.
///
/// The registry itself is a plain value; a host wraps it in a
/// reader/writer lock and calls each operation while holding the lock, so
/// every operation here is one atomic step of the shared map.
pub struct MediaManager {
    pub records: Vec<MediaFile>,
    pub removed: Vec<String>,
    pub proxy_settings: ProxySettings,
    pub proxy_dir: String,
}

impl MediaManager {
    /// Some present record carries this identifier.
    pub open spec fn contains_id(self, id: Seq<char>) -> bool {
        exists|i: int| 0 <= i < self.records@.len() && self.records@[i].id@ == id
    }

    /// The index of the record carrying `id` (meaningful when present and
    /// identifiers are distinct).
    pub open spec fn index_of(self, id: Seq<char>) -> int {
        choose|i: int| 0 <= i < self.records@.len() && self.records@[i].id@ == id
    }

    /// The present record carrying `id`.
    pub open spec fn record_at(self, id: Seq<char>) -> MediaFile {
        self.records@[self.index_of(id)]
    }

    /// `id` has been removed (tombstoned).
    pub open spec fn removed_contains(self, id: Seq<char>) -> bool {
        exists|i: int| 0 <= i < self.removed@.len() && self.removed@[i]@ == id
    }

    /// `id` has been seen at some point: it is present now or was removed.
    pub open spec fn seen(self, id: Seq<char>) -> bool {
        self.contains_id(id) || self.removed_contains(id)
    }

    /// What a lookup under the read lock observes.
    pub open spec fn spec_get(self, id: Seq<char>) -> Option<MediaFile> {
        if self.contains_id(id) {
            Some(self.record_at(id))
        } else {
            None
        }
    }

    pub open spec fn ids_distinct(self) -> bool {
        forall|i: int, j: int|
            0 <= i < j < self.records@.len() ==> self.records@[i].id@ != self.records@[j].id@
    }

    /// Registry invariant: one record per identifier, every visible record
    /// well-formed, no present record tombstoned, tombstones distinct.
    pub open spec fn wf(self) -> bool {
        &&& self.ids_distinct()
        &&& forall|i: int| 0 <= i < self.records@.len() ==> (#[trigger] self.records@[i]).wf()
        &&& forall|i: int|
            0 <= i < self.records@.len() ==> !self.removed_contains(
                (#[trigger] self.records@[i]).id@,
            )
        &&& forall|i: int, j: int|
            0 <= i < j < self.removed@.len() ==> self.removed@[i]@ != self.removed@[j]@
    }

    /// A fresh registry: empty map, no tombstones, and the default settings
    /// (half resolution, h264, quality 23).
    pub fn new(proxy_dir: String) -> (r: Self)
        ensures
            r.wf(),
            r.records@.len() == 0,
            r.removed@.len() == 0,
            r.proxy_settings.resolution is Half,
            r.proxy_settings.codec@ == "h264"@,
            r.proxy_settings.quality == 23,
            r.proxy_dir == proxy_dir,
    {
        MediaManager {
            records: Vec::new(),
            removed: Vec::new(),
            proxy_settings: ProxySettings {
                resolution: ProxyResolution::Half,
                codec: String::from_str("h264"),
                quality: 23,
            },
            proxy_dir,
        }
    }

    fn find_index(&self, id: &str) -> (r: Option<usize>)
        ensures
            match r {
                Some(i) => i < self.records@.len() && self.records@[i as int].id@ == id@,
                None => !self.contains_id(id@),
            },
    {
        let n = self.records.len();
        let mut i: usize = 0;
        while i < n
            invariant
                n == self.records@.len(),
                i <= n,
                forall|k: int| 0 <= k < i ==> self.records@[k].id@ != id@,
            decreases n - i,
    {
            if str_eq(self.records[i].id.as_str(), id) {
                return Some(i);
            }
            i += 1;
        }
        None
    }

    fn removed_has(&self, id: &str) -> (r: bool)
        ensures
            r == self.removed_contains(id@),
    {
        let n = self.removed.len();
        let mut i: usize = 0;
        while i < n
            invariant
                n == self.removed@.len(),
                i <= n,
                forall|k: int| 0 <= k < i ==> self.removed@[k]@ != id@,
            decreases n - i,
        {
            if str_eq(self.removed[i].as_str(), id) {
                return true;
            }
            i += 1;
        }
        false
    }

    /// Make a freshly drawn record visible. Fails exactly when the record's
    /// identifier has been seen before (present or tombstoned), and then
    /// changes nothing.
    pub fn register_import(&mut self, record: MediaFile) -> (r: Result<(), String>)
        requires
            old(self).wf(),
            record.wf(),
        ensures
            final(self).wf(),
            final(self).proxy_settings == old(self).proxy_settings,
            final(self).proxy_dir == old(self).proxy_dir,
            final(self).removed == old(self).removed,
            r is Err <==> old(self).seen(record.id@),
            match r {
                Ok(_) => final(self).records@ == old(self).records@.push(record),
                Err(e) => *final(self) == *old(self) && e@
                    == "generated identifier was already in use"@ && e@.len() > 0,
            },
    {
        if self.find_index(record.id.as_str()).is_some() || self.removed_has(
            record.id.as_str(),
        ) {
            proof {
                reveal_strlit("generated identifier was already in use");
            }
            return Err(String::from_str("generated identifier was already in use"));
        }
        let ghost grec = record;
        self.records.push(record);
        proof {
            assert forall|i: int, j: int|
                0 <= i < j < self.records@.len() implies self.records@[i].id@
                != self.records@[j].id@ by {
                if j == self.records@.len() - 1 {
                    assert(self.records@[i] == old(self).records@[i]);
                }
            }
            assert(self.wf());
        }
        Ok(())
    }

    /// Start an import: create a record in `Importing` state under a freshly
    /// generated identifier, make it visible, and return the identifier at
    /// once; probing and proxy generation follow in the background and commit
    /// through `commit_media`. Fails only if identifier generation collides
    /// with an identifier already seen (impossible while nothing has been
    /// seen), and then changes nothing.
    pub fn import_media(&mut self, path: String) -> (r: Result<String, String>)
        requires
            old(self).wf(),
        ensures
            final(self).wf(),
            final(self).proxy_settings == old(self).proxy_settings,
            final(self).proxy_dir == old(self).proxy_dir,
            final(self).removed == old(self).removed,
            (old(self).records@.len() == 0 && old(self).removed@.len() == 0) ==> r is Ok,
            match r {
                Ok(id) => {
                    &&& !old(self).seen(id@)
                    &&& id@.len() == 36
                    &&& final(self).records@ == old(self).records@.push(
                        (MediaFile {
                            id: id,
                            original_path: path,
                            proxy_path: None,
                            media_type: MediaType::Video,
                            metadata: MediaMetadata::unset(),
                            status: MediaStatus::Importing,
                        }),
                    )
                },
                Err(e) => *final(self) == *old(self) && e@.len() > 0,
            },
    {
        let record = MediaFile::new(path);
        let id = record.id.clone();
        let ghost grec = record;
        match self.register_import(record) {
            Ok(_) => Ok(id),
            Err(e) => Err(e),
        }
    }

    /// A snapshot copy of the record for `id`, `None` if absent.
    pub fn get_media(&self, id: &str) -> (r: Option<MediaFile>)
        requires
            self.wf(),
        ensures
            r == self.spec_get(id@),
    {
        match self.find_index(id) {
            Some(i) => {
                let rec = self.records[i].clone();
                proof {
                    assert(self.contains_id(id@));
                    let j = self.index_of(id@);
                    if j < i as int {
                        assert(self.records@[j].id@ != self.records@[i as int].id@);
                    } else if j > i as int {
                        assert(self.records@[i as int].id@ != self.records@[j].id@);
                    }
                }
                Some(rec)
            },
            None => None,
        }
    }

    /// A snapshot of all present records.
    pub fn list_media(&self) -> (r: Vec<MediaFile>)
        ensures
            r@ == self.records@,
    {
        let n = self.records.len();
        let mut out: Vec<MediaFile> = Vec::new();
        let mut i: usize = 0;
        while i < n
            invariant
                n == self.records@.len(),
                i <= n,
                out@.len() == i,
                forall|k: int| 0 <= k < i ==> out@[k] == self.records@[k],
            decreases n - i,
        {
            out.push(self.records[i].clone());
            i += 1;
        }
        proof {
            assert(out@ =~= self.records@);
        }
        out
    }

    /// Remove the record for `id`, if any, and tombstone the identifier so a
    /// racing pipeline commit cannot resurrect it. Returns the proxy path
    /// whose on-disk artifact the caller must now delete, if the removed
    /// record had one. Removing an absent identifier is not an error, and
    /// removing an already-removed one changes nothing at all.
    pub fn remove_media(&mut self, id: &str) -> (r: Option<String>)
        requires
            old(self).wf(),
        ensures
            final(self).wf(),
            final(self).proxy_settings == old(self).proxy_settings,
            final(self).proxy_dir == old(self).proxy_dir,
            !final(self).contains_id(id@),
            final(self).removed_contains(id@),
            forall|oid: Seq<char>|
                oid != id@ ==> final(self).spec_get(oid) == old(self).spec_get(oid),
            forall|oid: Seq<char>|
                oid != id@ ==> final(self).removed_contains(oid) == old(self).removed_contains(
                    oid,
                ),
            r == (if old(self).contains_id(id@) {
                old(self).record_at(id@).proxy_path
            } else {
                None::<String>
            }),
            (!old(self).contains_id(id@) && old(self).removed_contains(id@)) ==> *final(self)
                == *old(self),
    {
        let ghost pre = *self;
        let idx_opt = self.find_index(id);
        let mut result: Option<String> = None;
        match idx_opt {
            Some(i) => {
                proof {
                    let j = pre.index_of(id@);
                    assert(pre.contains_id(id@));
                    if j < i as int {
                        assert(pre.records@[j].id@ != pre.records@[i as int].id@);
                    } else if j > i as int {
                        assert(pre.records@[i as int].id@ != pre.records@[j].id@);
                    }
                }
                let rec = self.records.remove(i);
                result = rec.proxy_path;
                proof {
                    lemma_seq_remove_still_distinct(pre, i as int);
                }
            },
            None => {
            },
        }
        let ghost mid = *self;
        if !self.removed_has(id) {
            self.removed.push(str_to_string(id));
        }
        proof {
            assert forall|oid: Seq<char>| oid != id@ implies self.spec_get(oid) == pre.spec_get(
                oid,
            ) by {
                lemma_get_preserved(pre, mid, *self, id@, oid, idx_opt);
            }
            assert(!self.contains_id(id@)) by {
                if self.contains_id(id@) {
                    let k = choose|k: int|
                        0 <= k < mid.records@.len() && mid.records@[k].id@ == id@;
                    match idx_opt {
                        Some(i) => {
                            let ki = if k < i as int {
                                k
                            } else {
                                k + 1
                            };
                            assert(pre.records@[ki].id@ == id@);
                            assert(pre.records@[i as int].id@ == id@);
                        },
                        None => {
                            assert(pre.records@[k].id@ == id@);
                        },
                    }
                }
            }
            assert(self.wf()) by {
                lemma_remove_wf(pre, mid, *self, id@, idx_opt);
            }
            assert(self.removed_contains(id@)) by {
                if self.removed@.len() > mid.removed@.len() {
                    assert(self.removed@[self.removed@.len() - 1]@ == id@);
                }
            }
            assert forall|oid: Seq<char>| oid != id@ implies self.removed_contains(oid)
                == pre.removed_contains(oid) by {
                if pre.removed_contains(oid) {
                    let k = choose|k: int| 0 <= k < pre.removed@.len() && pre.removed@[k]@ == oid;
                    assert(self.removed@[k]@ == oid);
                }
                if self.removed_contains(oid) {
                    let k = choose|k: int|
                        0 <= k < self.removed@.len() && self.removed@[k]@ == oid;
                    if k < pre.removed@.len() {
                        assert(pre.removed@[k]@ == oid);
                    } else {
                        assert(self.removed@[k]@ == id@);
                    }
                }
            }
        }
        result
    }

    /// `record.id` is present and its committed record has reached a
    /// terminal state, which only removal may undo.
    pub open spec fn holds_terminal(self, id: Seq<char>) -> bool {
        self.contains_id(id) && self.record_at(id).status.spec_is_terminal()
    }

    /// A background pipeline commits the current shape of its record by
    /// replacing the whole map entry. A commit for a tombstoned identifier
    /// is dropped, so a removal is never resurrected, and a commit against a
    /// record already in a terminal state is dropped too, so nothing but
    /// removal leaves `Ready` or `Error`; a commit for an absent,
    /// untombstoned identifier inserts the record (insert once per
    /// identifier).
    pub fn commit_media(&mut self, record: MediaFile)
        requires
            old(self).wf(),
            record.wf(),
        ensures
            final(self).wf(),
            final(self).proxy_settings == old(self).proxy_settings,
            final(self).proxy_dir == old(self).proxy_dir,
            final(self).removed == old(self).removed,
            old(self).removed_contains(record.id@) ==> *final(self) == *old(self),
            old(self).holds_terminal(record.id@) ==> *final(self) == *old(self),
            (!old(self).removed_contains(record.id@) && !old(self).holds_terminal(record.id@))
                ==> {
                &&& final(self).contains_id(record.id@)
                &&& final(self).record_at(record.id@) == record
                &&& forall|oid: Seq<char>|
                    oid != record.id@ ==> final(self).spec_get(oid) == old(self).spec_get(oid)
            },
    {
        if self.removed_has(record.id.as_str()) {
            return;
        }
        let ghost pre = *self;
        let ghost grec = record;
        let idx_opt = self.find_index(record.id.as_str());
        match idx_opt {
            Some(i) => {
                proof {
                    assert(pre.contains_id(grec.id@));
                    let j = pre.index_of(grec.id@);
                    if j < i as int {
                        assert(pre.records@[j].id@ != pre.records@[i as int].id@);
                    } else if j > i as int {
                        assert(pre.records@[i as int].id@ != pre.records@[j].id@);
                    }
                    assert(pre.record_at(grec.id@) == pre.records@[i as int]);
                }
                if self.records[i].status.is_terminal() {
                    return;
                }
                self.records[i] = record;
                proof {
                    lemma_commit_replace(pre, *self, grec, i as int);
                }
            },
            None => {
                self.records.push(record);
                proof {
                    lemma_commit_insert(pre, *self, grec);
                }
            },
        }
    }

    /// Parse and apply new proxy settings. `"half"` and `"quarter"` are the
    /// accepted resolution tokens; anything else is rejected synchronously
    /// and nothing changes. Records and tombstones are never touched.
    pub fn update_proxy_settings(&mut self, resolution: &str, codec: String, quality: u32) -> (r:
        Result<(), String>)
        ensures
            final(self).records == old(self).records,
            final(self).removed == old(self).removed,
            final(self).proxy_dir == old(self).proxy_dir,
            r is Ok <==> (resolution@ == "half"@ || resolution@ == "quarter"@),
            match r {
                Ok(_) => final(self).proxy_settings == (ProxySettings {
                    resolution: if resolution@ == "half"@ {
                        ProxyResolution::Half
                    } else {
                        ProxyResolution::Quarter
                    },
                    codec: codec,
                    quality: quality,
                }),
                Err(e) => *final(self) == *old(self) && e@ == "Invalid resolution"@ && e@.len()
                    > 0,
            },
    {
        let parsed: ProxyResolution;
        if str_eq(resolution, "half") {
            parsed = ProxyResolution::Half;
        } else if str_eq(resolution, "quarter") {
            parsed = ProxyResolution::Quarter;
        } else {
            proof {
                reveal_strlit("Invalid resolution");
            }
            return Err(String::from_str("Invalid resolution"));
        }
        self.proxy_settings = ProxySettings { resolution: parsed, codec, quality };
        Ok(())
    }

    /// A snapshot of the settings a newly started import would run with.
    pub fn settings(&self) -> (r: ProxySettings)
        ensures
            r == self.proxy_settings,
    {
        self.proxy_settings.clone()
    }
}

fn str_to_string(s: &str) -> (r: String)
    ensures
        r@ == s@,
{
    String::from_str(s)
}

/// The registry holds exactly the identifiers that were imported and not
/// yet removed, each once: an identifier is present if and only if it has
/// been seen and not tombstoned, and no identifier appears under two
/// records.
pub proof fn lemma_registry_accounting(m: MediaManager)
    requires
        m.wf(),
    ensures
        forall|id: Seq<char>| m.contains_id(id) <==> (m.seen(id) && !m.removed_contains(id)),
        forall|i: int, j: int|
            0 <= i < j < m.records@.len() ==> m.records@[i].id@ != m.records@[j].id@,
{
    assert forall|id: Seq<char>|
        m.contains_id(id) <==> (m.seen(id) && !m.removed_contains(id)) by {
        if m.contains_id(id) {
            let i = choose|i: int| 0 <= i < m.records@.len() && m.records@[i].id@ == id;
            assert(!m.removed_contains(m.records@[i].id@));
        }
    }
}

/// Every record a reader can observe is well-formed: whatever snapshot
/// `list_media` returns, a `Ready` entry carries a proxy path, any other
/// entry carries none, and a failed entry carries a non-empty reason.
pub proof fn lemma_snapshot_consistent(m: MediaManager)
    requires
        m.wf(),
    ensures
        forall|k: int|
            0 <= k < m.records@.len() ==> ((#[trigger] m.records@[k]).status is Ready
                <==> m.records@[k].proxy_path is Some),
        forall|k: int|
            0 <= k < m.records@.len() ==> ((#[trigger] m.records@[k]).status is Error
                ==> m.records@[k].proxy_path is None),
{
}

/// After an identifier is gone from the registry, a lookup observes
/// nothing: `get` after `remove` returns `None`.
pub proof fn lemma_get_after_remove(m: MediaManager, id: Seq<char>)
    requires
        !m.contains_id(id),
    ensures
        m.spec_get(id) is None,
{
}

proof fn lemma_seq_remove_still_distinct(pre: MediaManager, i: int)
    requires
        pre.wf(),
        0 <= i < pre.records@.len(),
    ensures
        forall|x: int, y: int|
            0 <= x < y < pre.records@.remove(i).len() ==> pre.records@.remove(i)[x].id@
                != pre.records@.remove(i)[y].id@,
{
    let s = pre.records@.remove(i);
    assert forall|x: int, y: int| 0 <= x < y < s.len() implies s[x].id@ != s[y].id@ by {
        let x0 = if x < i {
            x
        } else {
            x + 1
        };
        let y0 = if y < i {
            y
        } else {
            y + 1
        };
        assert(s[x] == pre.records@[x0]);
        assert(s[y] == pre.records@[y0]);
    }
}

proof fn lemma_get_preserved(
    pre: MediaManager,
    mid: MediaManager,
    post: MediaManager,
    id: Seq<char>,
    oid: Seq<char>,
    idx_opt: Option<usize>,
)
    requires
        pre.wf(),
        oid != id,
        mid.records == post.records,
        match idx_opt {
            Some(i) => (i as int) < pre.records@.len() && pre.records@[i as int].id@ == id
                && mid.records@ == pre.records@.remove(i as int),
            None => !pre.contains_id(id) && mid.records == pre.records,
        },
    ensures
        post.spec_get(oid) == pre.spec_get(oid),
{
    match idx_opt {
        Some(i) => {
            let iv = i as int;
            if pre.contains_id(oid) {
                let j = pre.index_of(oid);
                assert(0 <= j < pre.records@.len() && pre.records@[j].id@ == oid);
                assert(j != iv);
                let j2 = if j < iv {
                    j
                } else {
                    j - 1
                };
                assert(post.records@[j2] == pre.records@[j]);
                assert(post.contains_id(oid));
                let k = post.index_of(oid);
                assert(0 <= k < post.records@.len() && post.records@[k].id@ == oid);
                let k0 = if k < iv {
                    k
                } else {
                    k + 1
                };
                assert(post.records@[k] == pre.records@[k0]);
                if k0 != j {
                    if k0 < j {
                        assert(pre.records@[k0].id@ != pre.records@[j].id@);
                    } else {
                        assert(pre.records@[j].id@ != pre.records@[k0].id@);
                    }
                }
                assert(post.record_at(oid) == pre.record_at(oid));
            } else {
                if post.contains_id(oid) {
                    let k = post.index_of(oid);
                    let k0 = if k < iv {
                        k
                    } else {
                        k + 1
                    };
                    assert(post.records@[k] == pre.records@[k0]);
                    assert(pre.contains_id(oid));
                }
            }
        },
        None => {
            assert(post.records == pre.records);
            if pre.contains_id(oid) {
                assert(post.contains_id(oid));
                assert(post.index_of(oid) == pre.index_of(oid));
            } else {
                if post.contains_id(oid) {
                    assert(pre.contains_id(oid));
                }
            }
        },
    }
}

proof fn lemma_remove_wf(
    pre: MediaManager,
    mid: MediaManager,
    post: MediaManager,
    id: Seq<char>,
    idx_opt: Option<usize>,
)
    requires
        pre.wf(),
        mid.records == post.records,
        mid.removed == pre.removed,
        match idx_opt {
            Some(i) => (i as int) < pre.records@.len() && pre.records@[i as int].id@ == id
                && mid.records@ == pre.records@.remove(i as int),
            None => !pre.contains_id(id) && mid.records == pre.records,
        },
        post.removed == mid.removed || (!mid.removed_contains(id) && post.removed@
            == mid.removed@.push(post.removed@.last()) && post.removed@.last()@ == id),
    ensures
        post.wf(),
{
    assert forall|x: int, y: int|
        0 <= x < y < post.records@.len() implies post.records@[x].id@ != post.records@[y].id@ by {
        match idx_opt {
            Some(i) => {
                let iv = i as int;
                let x0 = if x < iv {
                    x
                } else {
                    x + 1
                };
                let y0 = if y < iv {
                    y
                } else {
                    y + 1
                };
                assert(post.records@[x] == pre.records@[x0]);
                assert(post.records@[y] == pre.records@[y0]);
            },
            None => {
            },
        }
    }
    assert forall|x: int| 0 <= x < post.records@.len() implies (#[trigger] post.records@[x]).wf()
        && !post.removed_contains(post.records@[x].id@) by {
        let x0: int = match idx_opt {
            Some(i) => if x < i as int {
                x
            } else {
                x + 1
            },
            None => x,
        };
        assert(post.records@[x] == pre.records@[x0]);
        assert(pre.records@[x0].wf());
        assert(!pre.removed_contains(pre.records@[x0].id@));
        if post.removed_contains(post.records@[x].id@) {
            let k = choose|k: int|
                0 <= k < post.removed@.len() && post.removed@[k]@ == post.records@[x].id@;
            if k < pre.removed@.len() {
                assert(pre.removed@[k]@ == post.records@[x].id@);
                assert(pre.removed_contains(pre.records@[x0].id@));
            } else {
                assert(post.records@[x].id@ == id);
                match idx_opt {
                    Some(i) => {
                        let iv = i as int;
                        if x0 < iv {
                            assert(pre.records@[x0].id@ != pre.records@[iv].id@);
                        } else {
                            assert(pre.records@[iv].id@ != pre.records@[x0].id@);
                        }
                    },
                    None => {
                        assert(pre.contains_id(id));
                    },
                }
            }
        }
    }
    assert forall|x: int, y: int|
        0 <= x < y < post.removed@.len() implies post.removed@[x]@ != post.removed@[y]@ by {
        if y < pre.removed@.len() {
            assert(post.removed@[x] == pre.removed@[x]);
            assert(post.removed@[y] == pre.removed@[y]);
        } else {
            assert(post.removed@[x] == pre.removed@[x]);
            assert(post.removed@[y]@ == id);
            assert(!mid.removed_contains(id));
            assert(pre.removed@[x]@ != id);
        }
    }
}

proof fn lemma_commit_replace(pre: MediaManager, post: MediaManager, rec: MediaFile, i: int)
    requires
        pre.wf(),
        rec.wf(),
        !pre.removed_contains(rec.id@),
        0 <= i < pre.records@.len(),
        pre.records@[i].id@ == rec.id@,
        post.records@ == pre.records@.update(i, rec),
        post.removed == pre.removed,
    ensures
        post.wf(),
        post.contains_id(rec.id@),
        post.record_at(rec.id@) == rec,
        forall|oid: Seq<char>| oid != rec.id@ ==> post.spec_get(oid) == pre.spec_get(oid),
{
    assert forall|x: int, y: int|
        0 <= x < y < post.records@.len() implies post.records@[x].id@ != post.records@[y].id@ by {
        assert(pre.records@[x].id@ != pre.records@[y].id@);
    }
    assert forall|x: int| 0 <= x < post.records@.len() implies (#[trigger] post.records@[x]).wf()
        && !post.removed_contains(post.records@[x].id@) by {
        if x != i {
            assert(post.records@[x] == pre.records@[x]);
        }
    }
    assert(post.records@[i].id@ == rec.id@);
    assert(post.contains_id(rec.id@));
    let k = post.index_of(rec.id@);
    if k != i {
        if k < i {
            assert(pre.records@[k].id@ != pre.records@[i].id@);
            assert(post.records@[k] == pre.records@[k]);
        } else {
            assert(pre.records@[i].id@ != pre.records@[k].id@);
            assert(post.records@[k] == pre.records@[k]);
        }
    }
    assert(post.record_at(rec.id@) == rec);
    assert forall|oid: Seq<char>| oid != rec.id@ implies post.spec_get(oid) == pre.spec_get(
        oid,
    ) by {
        if pre.contains_id(oid) {
            let j = pre.index_of(oid);
            assert(j != i);
            assert(post.records@[j] == pre.records@[j]);
            assert(post.contains_id(oid));
            let k2 = post.index_of(oid);
            assert(k2 != i);
            assert(post.records@[k2] == pre.records@[k2]);
            if k2 != j {
                if k2 < j {
                    assert(pre.records@[k2].id@ != pre.records@[j].id@);
                } else {
                    assert(pre.records@[j].id@ != pre.records@[k2].id@);
                }
            }
        } else {
            if post.contains_id(oid) {
                let k2 = post.index_of(oid);
                assert(k2 != i);
                assert(post.records@[k2] == pre.records@[k2]);
                assert(pre.contains_id(oid));
            }
        }
    }
}

proof fn lemma_commit_insert(pre: MediaManager, post: MediaManager, rec: MediaFile)
    requires
        pre.wf(),
        rec.wf(),
        !pre.removed_contains(rec.id@),
        !pre.contains_id(rec.id@),
        post.records@ == pre.records@.push(rec),
        post.removed == pre.removed,
    ensures
        post.wf(),
        post.contains_id(rec.id@),
        post.record_at(rec.id@) == rec,
        forall|oid: Seq<char>| oid != rec.id@ ==> post.spec_get(oid) == pre.spec_get(oid),
{
    let n = pre.records@.len() as int;
    assert forall|x: int, y: int|
        0 <= x < y < post.records@.len() implies post.records@[x].id@ != post.records@[y].id@ by {
        if y < n {
            assert(pre.records@[x].id@ != pre.records@[y].id@);
        } else {
            assert(post.records@[x] == pre.records@[x]);
            assert(post.records@[y] == rec);
        }
    }
    assert forall|x: int| 0 <= x < post.records@.len() implies (#[trigger] post.records@[x]).wf()
        && !post.removed_contains(post.records@[x].id@) by {
        if x < n {
            assert(post.records@[x] == pre.records@[x]);
        } else {
            assert(post.records@[x] == rec);
        }
    }
    assert(post.records@[n].id@ == rec.id@);
    assert(post.contains_id(rec.id@));
    let k = post.index_of(rec.id@);
    if k != n {
        assert(post.records@[k] == pre.records@[k]);
        assert(pre.contains_id(rec.id@));
    }
    assert(post.record_at(rec.id@) == rec);
    assert forall|oid: Seq<char>| oid != rec.id@ implies post.spec_get(oid) == pre.spec_get(
        oid,
    ) by {
        if pre.contains_id(oid) {
            let j = pre.index_of(oid);
            assert(post.records@[j] == pre.records@[j]);
            assert(post.contains_id(oid));
            let k2 = post.index_of(oid);
            assert(k2 != n);
            assert(post.records@[k2] == pre.records@[k2]);
            if k2 != j {
                if k2 < j {
                    assert(pre.records@[k2].id@ != pre.records@[j].id@);
                } else {
                    assert(pre.records@[j].id@ != pre.records@[k2].id@);
                }
            }
        } else {
            if post.contains_id(oid) {
                let k2 = post.index_of(oid);
                assert(k2 != n);
                assert(post.records@[k2] == pre.records@[k2]);
                assert(pre.contains_id(oid));
            }
        }
    }
}

} // verus!

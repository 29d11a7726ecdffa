//! The session store: per-session metadata records and message logs with
//! default-on-missing reads and whole-record (atomic) updates.
//!
//! A [`Catalog`] value models the durable state under the catalog root.
//! Presence is explicit at this layer: a record slot is absent, present, or
//! present-but-unparsable, and the read/update layer applies the default
//! policy on top.  Every operation is a single whole-record transition of the
//! catalog value, so no reader can observe a half-applied record; an
//! embedding that keeps records on a real medium preserves this by writing
//! each record to a temporary file and atomically swapping it into place.

use vstd::prelude::*;
use crate::error::SessionError;
use crate::model::{
    Message, SessionHistoryResponse, SessionMetadata, UpdateSessionTitleRequest, is_default_metadata,
    is_fresh_metadata, wf_message,
};
use crate::resolve::{Location, resolve, valid_id};

verus! {

/// What the durable medium holds as one session's metadata record.
pub enum StoredMetadata {
    /// No record was ever persisted.
    Missing,
    /// A record exists but cannot be parsed.
    Corrupt,
    Present(SessionMetadata),
}

/// What the durable medium holds as one session's message log.
pub enum StoredLog {
    Missing,
    Corrupt,
    Present(Vec<Message>),
}

/// One session's durable state.
pub struct SessionEntry {
    pub id: String,
    /// Formatted modification timestamp, `YYYY-MM-DD HH:MM:SS UTC`.
    pub modified: String,
    pub metadata: StoredMetadata,
    pub log: StoredLog,
}

/// The catalog: the collection of all persisted sessions.
pub struct Catalog {
    pub entries: Vec<SessionEntry>,
}

pub open spec fn wf_entry(e: SessionEntry) -> bool {
    &&& valid_id(e.id@)
    &&& match e.log {
        StoredLog::Present(msgs) => forall|i: int|
            0 <= i < msgs@.len() ==> wf_message(#[trigger] msgs@[i]),
        _ => true,
    }
}

pub open spec fn wf_entries(s: Seq<SessionEntry>) -> bool {
    &&& forall|i: int| 0 <= i < s.len() ==> wf_entry(#[trigger] s[i])
    &&& forall|i: int, j: int| 0 <= i < j < s.len() ==> s[i].id@ != s[j].id@
}

/// Whether some entry is stored under the given identifier.
pub open spec fn contains_id(s: Seq<SessionEntry>, name: Seq<char>) -> bool {
    exists|i: int| 0 <= i < s.len() && #[trigger] s[i].id@ == name
}

/// The index of the entry stored under the given identifier.
pub open spec fn idx_of(s: Seq<SessionEntry>, name: Seq<char>) -> int {
    choose|i: int| 0 <= i < s.len() && #[trigger] s[i].id@ == name
}

pub open spec fn entry_of(s: Seq<SessionEntry>, name: Seq<char>) -> SessionEntry {
    s[idx_of(s, name)]
}

/// The metadata slot at a location, `Missing` when no record exists at all.
pub open spec fn stored_metadata_of(s: Seq<SessionEntry>, name: Seq<char>) -> StoredMetadata {
    if contains_id(s, name) {
        entry_of(s, name).metadata
    } else {
        StoredMetadata::Missing
    }
}

/// The log slot at a location, `Missing` when no record exists at all.
pub open spec fn stored_log_of(s: Seq<SessionEntry>, name: Seq<char>) -> StoredLog {
    if contains_id(s, name) {
        entry_of(s, name).log
    } else {
        StoredLog::Missing
    }
}

/// With unique identifiers, `idx_of` is the one index holding the name.
pub proof fn lemma_idx_of(s: Seq<SessionEntry>, name: Seq<char>)
    requires
        wf_entries(s),
        contains_id(s, name),
    ensures
        0 <= idx_of(s, name) < s.len(),
        s[idx_of(s, name)].id@ == name,
        forall|j: int| 0 <= j < s.len() && s[j].id@ == name ==> j == idx_of(s, name),
{
    let i = idx_of(s, name);
    assert(0 <= i < s.len() && s[i].id@ == name);
    assert forall|j: int| 0 <= j < s.len() && s[j].id@ == name implies j == i by {
        if j < i {
            assert(s[j].id@ != s[i].id@);
        } else if j > i {
            assert(s[i].id@ != s[j].id@);
        }
    }
}

/// The catalog after replacing the metadata slot of the entry at `name`.
pub open spec fn set_metadata(
    s: Seq<SessionEntry>,
    name: Seq<char>,
    sm: StoredMetadata,
) -> Seq<SessionEntry>
    recommends
        contains_id(s, name),
{
    s.update(idx_of(s, name), (SessionEntry { metadata: sm, ..entry_of(s, name) }))
}

/// Replacing one metadata slot is a whole-record transition: it leaves every
/// identifier in place, the named slot holds exactly the new value, and every
/// other slot — metadata and log alike — is untouched.
pub proof fn lemma_set_metadata_effect(s: Seq<SessionEntry>, name: Seq<char>, sm: StoredMetadata)
    requires
        wf_entries(s),
        contains_id(s, name),
    ensures
        wf_entries(set_metadata(s, name, sm)),
        contains_id(set_metadata(s, name, sm), name),
        stored_metadata_of(set_metadata(s, name, sm), name) == sm,
        stored_log_of(set_metadata(s, name, sm), name) == stored_log_of(s, name),
        forall|other: Seq<char>| other != name ==> #[trigger] stored_metadata_of(
            set_metadata(s, name, sm),
            other,
        ) == stored_metadata_of(s, other),
        forall|other: Seq<char>| other != name ==> #[trigger] stored_log_of(
            set_metadata(s, name, sm),
            other,
        ) == stored_log_of(s, other),
{
    lemma_idx_of(s, name);
    let i = idx_of(s, name);
    let s2 = set_metadata(s, name, sm);
    assert(forall|j: int| 0 <= j < s.len() ==> s2[j].id@ == s[j].id@);
    assert(wf_entry(s2[i]));
    assert(contains_id(s2, name));
    lemma_idx_of(s2, name);
    assert(idx_of(s2, name) == i);
    assert forall|other: Seq<char>| other != name implies #[trigger] stored_metadata_of(s2, other)
        == stored_metadata_of(s, other) && #[trigger] stored_log_of(s2, other) == stored_log_of(
        s,
        other,
    ) by {
        if contains_id(s, other) {
            lemma_idx_of(s, other);
            let k = idx_of(s, other);
            assert(s2[k].id@ == other);
            assert(contains_id(s2, other));
            lemma_idx_of(s2, other);
            assert(idx_of(s2, other) == k);
            assert(k != i);
        } else {
            assert(!contains_id(s2, other));
        }
    }
}

/// What a metadata read returns: the stored record, the documented default
/// when none was persisted, and `CorruptData` only for an unparsable record.
pub open spec fn read_metadata_post(
    s: Seq<SessionEntry>,
    name: Seq<char>,
    r: Result<SessionMetadata, SessionError>,
) -> bool {
    match stored_metadata_of(s, name) {
        StoredMetadata::Missing => r matches Ok(m) && is_default_metadata(m),
        StoredMetadata::Corrupt => r == Err::<SessionMetadata, SessionError>(
            SessionError::CorruptData,
        ),
        StoredMetadata::Present(m) => r == Ok::<SessionMetadata, SessionError>(m),
    }
}

/// What a log read returns: the stored messages, `NotFound` when no log was
/// ever persisted, `CorruptData` for an unparsable one.
pub open spec fn read_messages_post(
    s: Seq<SessionEntry>,
    name: Seq<char>,
    r: Result<Vec<Message>, SessionError>,
) -> bool {
    match stored_log_of(s, name) {
        StoredLog::Missing => r == Err::<Vec<Message>, SessionError>(SessionError::NotFound),
        StoredLog::Corrupt => r == Err::<Vec<Message>, SessionError>(SessionError::CorruptData),
        StoredLog::Present(msgs) => r matches Ok(v) && v@ == msgs@,
    }
}

fn clone_messages(v: &Vec<Message>) -> (r: Vec<Message>)
    ensures
        r@ == v@,
{
    let mut out: Vec<Message> = Vec::new();
    let mut i: usize = 0;
    while i < v.len()
        invariant
            i <= v.len(),
            out@ == v@.subrange(0, i as int),
        decreases v.len() - i,
    {
        out.push(v[i].clone());
        proof {
            assert(v@.subrange(0, i + 1) =~= v@.subrange(0, i as int).push(v@[i as int]));
        }
        i = i + 1;
    }
    proof {
        assert(v@.subrange(0, v@.len() as int) =~= v@);
    }
    out
}

fn find_entry(entries: &Vec<SessionEntry>, loc: &Location) -> (r: Option<usize>)
    requires
        wf_entries(entries@),
    ensures
        match r {
            Some(i) => contains_id(entries@, loc.name@) && i as int == idx_of(entries@, loc.name@)
                && i < entries@.len() && entries@[i as int].id@ == loc.name@,
            None => !contains_id(entries@, loc.name@),
        },
{
    let mut i: usize = 0;
    while i < entries.len()
        invariant
            i <= entries@.len(),
            wf_entries(entries@),
            forall|j: int| 0 <= j < i ==> entries@[j].id@ != loc.name@,
        decreases entries@.len() - i,
    {
        if crate::strorder::str_view_eq(entries[i].id.as_str(), loc.name.as_str()) {
            proof {
                assert(contains_id(entries@, loc.name@));
                lemma_idx_of(entries@, loc.name@);
            }
            return Some(i);
        }
        i = i + 1;
    }
    None
}

impl Catalog {
    pub open spec fn wf(self) -> bool {
        wf_entries(self.entries@)
    }

    /// A catalog with no sessions at all.
    pub fn new() -> (r: Catalog)
        ensures
            r.wf(),
            r.entries@.len() == 0,
    {
        Catalog { entries: Vec::new() }
    }

    /// Reads the metadata record at a location.  A missing record yields the
    /// documented default — never an error on a resolvable location.
    pub fn read_metadata(&self, loc: &Location) -> (r: Result<SessionMetadata, SessionError>)
        requires
            self.wf(),
        ensures
            read_metadata_post(self.entries@, loc.name@, r),
    {
        match find_entry(&self.entries, loc) {
            None => Ok(SessionMetadata::default()),
            Some(i) => match &self.entries[i].metadata {
                StoredMetadata::Missing => Ok(SessionMetadata::default()),
                StoredMetadata::Corrupt => Err(SessionError::CorruptData),
                StoredMetadata::Present(m) => Ok(m.clone()),
            },
        }
    }

    /// Reads the ordered message log at a location.
    pub fn read_messages(&self, loc: &Location) -> (r: Result<Vec<Message>, SessionError>)
        requires
            self.wf(),
        ensures
            read_messages_post(self.entries@, loc.name@, r),
    {
        match find_entry(&self.entries, loc) {
            None => Err(SessionError::NotFound),
            Some(i) => match &self.entries[i].log {
                StoredLog::Missing => Err(SessionError::NotFound),
                StoredLog::Corrupt => Err(SessionError::CorruptData),
                StoredLog::Present(msgs) => Ok(clone_messages(msgs)),
            },
        }
    }

    /// Replaces the metadata record at a location as one indivisible
    /// whole-record transition.  Updating a location with no record fails
    /// with `NotFound` and changes nothing: that is this catalog's chosen
    /// policy, records are materialized by persisting messages, not by
    /// metadata updates.
    pub fn update_metadata(&mut self, loc: &Location, m: SessionMetadata) -> (r: Result<
        (),
        SessionError,
    >)
        requires
            old(self).wf(),
        ensures
            final(self).wf(),
            contains_id(old(self).entries@, loc.name@) ==> r == Ok::<(), SessionError>(())
                && final(self).entries@ == set_metadata(
                old(self).entries@,
                loc.name@,
                StoredMetadata::Present(m),
            ),
            !contains_id(old(self).entries@, loc.name@) ==> r == Err::<(), SessionError>(
                SessionError::NotFound,
            ) && final(self).entries@ == old(self).entries@,
    {
        match find_entry(&self.entries, loc) {
            None => Err(SessionError::NotFound),
            Some(i) => {
                let mut e = self.entries.remove(i);
                e.metadata = StoredMetadata::Present(m);
                self.entries.insert(i, e);
                proof {
                    lemma_idx_of(old(self).entries@, loc.name@);
                    assert(self.entries@ =~= set_metadata(
                        old(self).entries@,
                        loc.name@,
                        StoredMetadata::Present(m),
                    ));
                    lemma_set_metadata_effect(
                        old(self).entries@,
                        loc.name@,
                        StoredMetadata::Present(m),
                    );
                }
                Ok(())
            },
        }
    }
}

/// How one entry changes when messages are appended to it: the log is
/// extended (or materialized), the modification stamp is replaced, and a
/// readable metadata record has its message count brought up to the new log
/// length — an unparsable one is left untouched.
pub open spec fn appended_entry(
    e1: SessionEntry,
    e2: SessionEntry,
    msgs: Seq<Message>,
    modified: String,
) -> bool {
    &&& e2.id == e1.id
    &&& e2.modified == modified
    &&& match (e1.log, e2.log) {
        (StoredLog::Missing, StoredLog::Present(v)) => v@ == msgs,
        (StoredLog::Present(v1), StoredLog::Present(v2)) => v2@ == v1@ + msgs,
        _ => false,
    }
    &&& match (e1.metadata, e2.metadata) {
        (StoredMetadata::Corrupt, StoredMetadata::Corrupt) => true,
        (StoredMetadata::Missing, StoredMetadata::Present(m2)) => is_fresh_metadata(
            m2,
            log_len(e2.log),
        ),
        (StoredMetadata::Present(m1), StoredMetadata::Present(m2)) => m2 == (SessionMetadata {
            message_count: log_len(e2.log) as usize,
            ..m1
        }),
        _ => false,
    }
}

pub open spec fn log_len(l: StoredLog) -> nat {
    match l {
        StoredLog::Present(v) => v@.len(),
        _ => 0,
    }
}

/// What persisting messages does to the catalog: an existing record is
/// extended in place as one whole-record transition, a session with no
/// record yet is materialized by its first persist, and an unparsable log
/// rejects the append unchanged.
pub open spec fn append_post(
    s1: Seq<SessionEntry>,
    s2: Seq<SessionEntry>,
    name: Seq<char>,
    msgs: Seq<Message>,
    modified: String,
    r: Result<(), SessionError>,
) -> bool {
    if !contains_id(s1, name) {
        &&& r == Ok::<(), SessionError>(())
        &&& s2.len() == s1.len() + 1
        &&& s2.take(s1.len() as int) == s1
        &&& s2.last().id@ == name
        &&& s2.last().modified == modified
        &&& s2.last().log matches StoredLog::Present(v) && v@ == msgs
        &&& s2.last().metadata matches StoredMetadata::Present(m) && is_fresh_metadata(
            m,
            msgs.len(),
        )
    } else if stored_log_of(s1, name) is Corrupt {
        r == Err::<(), SessionError>(SessionError::CorruptData) && s2 == s1
    } else {
        &&& r == Ok::<(), SessionError>(())
        &&& s2.len() == s1.len()
        &&& forall|j: int|
            0 <= j < s1.len() && j != idx_of(s1, name) ==> s2[j] == s1[j]
        &&& appended_entry(s1[idx_of(s1, name)], s2[idx_of(s1, name)], msgs, modified)
    }
}

impl Catalog {
    /// Extends the message log at a location, creating the session record on
    /// its first persist, and stamps the record with the given modification
    /// time.  The write is an atomicity boundary: the catalog steps from the
    /// state before the append to the state after it in one transition.
    pub fn append_messages(
        &mut self,
        loc: &Location,
        msgs: Vec<Message>,
        modified: String,
    ) -> (r: Result<(), SessionError>)
        requires
            old(self).wf(),
            loc.wf(),
            forall|i: int| 0 <= i < msgs@.len() ==> wf_message(#[trigger] msgs@[i]),
        ensures
            final(self).wf(),
            append_post(old(self).entries@, final(self).entries@, loc.name@, msgs@, modified, r),
    {
        let ghost s1 = self.entries@;
        match find_entry(&self.entries, loc) {
            None => {
                let count = msgs.len();
                let mut md = SessionMetadata::default();
                md.message_count = count;
                let e = SessionEntry {
                    id: loc.name.clone(),
                    modified,
                    metadata: StoredMetadata::Present(md),
                    log: StoredLog::Present(msgs),
                };
                self.entries.push(e);
                proof {
                    assert(self.entries@.take(s1.len() as int) =~= s1);
                    assert forall|i: int, j: int|
                        0 <= i < j < self.entries@.len() implies self.entries@[i].id@
                        != self.entries@[j].id@ by {
                        if j == s1.len() as int {
                            assert(!contains_id(s1, loc.name@));
                            assert(s1[i].id@ != loc.name@);
                        }
                    }
                }
                Ok(())
            },
            Some(i) => {
                let e = self.entries.remove(i);
                let SessionEntry { id, modified: prev_modified, metadata, log } = e;
                match log {
                    StoredLog::Corrupt => {
                        self.entries.insert(
                            i,
                            SessionEntry {
                                id,
                                modified: prev_modified,
                                metadata,
                                log: StoredLog::Corrupt,
                            },
                        );
                        proof {
                            assert(self.entries@ =~= s1);
                        }
                        Err(SessionError::CorruptData)
                    },
                    StoredLog::Missing => {
                        let count = msgs.len();
                        let e2 = SessionEntry {
                            id,
                            modified,
                            metadata: refreshed_metadata(metadata, count),
                            log: StoredLog::Present(msgs),
                        };
                        self.entries.insert(i, e2);
                        proof {
                            lemma_appended_wf(s1, self.entries@, i as int, loc.name@);
                        }
                        Ok(())
                    },
                    StoredLog::Present(v) => {
                        let mut v = v;
                        let mut rest = msgs;
                        v.append(&mut rest);
                        let count = v.len();
                        let e2 = SessionEntry {
                            id,
                            modified,
                            metadata: refreshed_metadata(metadata, count),
                            log: StoredLog::Present(v),
                        };
                        self.entries.insert(i, e2);
                        proof {
                            lemma_appended_wf(s1, self.entries@, i as int, loc.name@);
                        }
                        Ok(())
                    },
                }
            },
        }
    }
}

/// The metadata slot after an append brought the message count to `count`:
/// a readable record is updated, an unparsable one left alone.
fn refreshed_metadata(md: StoredMetadata, count: usize) -> (r: StoredMetadata)
    ensures
        match (md, r) {
            (StoredMetadata::Corrupt, StoredMetadata::Corrupt) => true,
            (StoredMetadata::Missing, StoredMetadata::Present(m)) => is_fresh_metadata(
                m,
                count as nat,
            ),
            (StoredMetadata::Present(m1), StoredMetadata::Present(m2)) => m2 == (SessionMetadata {
                message_count: count,
                ..m1
            }),
            _ => false,
        },
{
    match md {
        StoredMetadata::Corrupt => StoredMetadata::Corrupt,
        StoredMetadata::Missing => {
            let mut m = SessionMetadata::default();
            m.message_count = count;
            StoredMetadata::Present(m)
        },
        StoredMetadata::Present(mut m) => {
            m.message_count = count;
            StoredMetadata::Present(m)
        },
    }
}

/// A metadata record whose description was replaced by `title` on top of the
/// default record, with the customization flag set.
pub open spec fn is_titled_default(m: SessionMetadata, title: String) -> bool {
    &&& m.description == title
    &&& m.message_count == 0
    &&& m.total_tokens is None
    &&& m.input_tokens is None
    &&& m.output_tokens is None
    &&& m.accumulated_total_tokens is None
    &&& m.accumulated_input_tokens is None
    &&& m.accumulated_output_tokens is None
    &&& m.working_dir@ == Seq::<char>::empty()
    &&& m.schedule_id is None
    &&& m.project_id is None
    &&& m.is_title_customized
}

/// What a title update does: it rejects an invalid identifier, fails with
/// `NotFound` for a session that has no record (the chosen policy for
/// updating a nonexistent location), surfaces an unparsable record, and
/// otherwise commits, as one whole-record transition, the stored record with
/// its description replaced and `is_title_customized` set — every other
/// field kept.
pub open spec fn title_update_post(
    s1: Seq<SessionEntry>,
    s2: Seq<SessionEntry>,
    id: Seq<char>,
    title: String,
    r: Result<(), SessionError>,
) -> bool {
    if !valid_id(id) {
        r == Err::<(), SessionError>(SessionError::InvalidIdentifier) && s2 == s1
    } else if !contains_id(s1, id) {
        r == Err::<(), SessionError>(SessionError::NotFound) && s2 == s1
    } else {
        match stored_metadata_of(s1, id) {
            StoredMetadata::Corrupt => r == Err::<(), SessionError>(SessionError::CorruptData)
                && s2 == s1,
            StoredMetadata::Present(m) => r == Ok::<(), SessionError>(()) && s2 == set_metadata(
                s1,
                id,
                StoredMetadata::Present(
                    (SessionMetadata { description: title, is_title_customized: true, ..m }),
                ),
            ),
            StoredMetadata::Missing => r == Ok::<(), SessionError>(()) && s2.len() == s1.len()
                && (forall|j: int| 0 <= j < s1.len() && j != idx_of(s1, id) ==> s2[j] == s1[j])
                && s2[idx_of(s1, id)] == (SessionEntry {
                metadata: stored_metadata_of(s2, id),
                ..s1[idx_of(s1, id)]
            }) && (stored_metadata_of(s2, id) matches StoredMetadata::Present(m)
                && is_titled_default(m, title)),
        }
    }
}

/// Replaces a session's title: a read-modify-write of the metadata record,
/// committed atomically by `update_metadata`.
pub fn update_session_title(
    catalog: &mut Catalog,
    session_id: &str,
    request: UpdateSessionTitleRequest,
) -> (r: Result<(), SessionError>)
    requires
        old(catalog).wf(),
    ensures
        final(catalog).wf(),
        title_update_post(
            old(catalog).entries@,
            final(catalog).entries@,
            session_id@,
            request.title,
            r,
        ),
{
    let loc = match resolve(session_id) {
        Ok(l) => l,
        Err(e) => {
            return Err(e);
        },
    };
    let mut m = match catalog.read_metadata(&loc) {
        Ok(m) => m,
        Err(e) => {
            return Err(e);
        },
    };
    m.description = request.title;
    m.is_title_customized = true;
    let r = catalog.update_metadata(&loc, m);
    proof {
        if contains_id(old(catalog).entries@, loc.name@) {
            lemma_idx_of(old(catalog).entries@, loc.name@);
            lemma_set_metadata_effect(
                old(catalog).entries@,
                loc.name@,
                catalog.entries@[idx_of(old(catalog).entries@, loc.name@)].metadata,
            );
        }
    }
    r
}

/// What a history read returns: the identifier, the stored (or default)
/// metadata, and the full ordered message log; `NotFound` when no log was
/// ever persisted, `CorruptData` when either half of the record cannot be
/// parsed.
pub open spec fn history_post(
    s: Seq<SessionEntry>,
    id: Seq<char>,
    r: Result<SessionHistoryResponse, SessionError>,
) -> bool {
    if !valid_id(id) {
        r == Err::<SessionHistoryResponse, SessionError>(SessionError::InvalidIdentifier)
    } else if stored_metadata_of(s, id) is Corrupt {
        r == Err::<SessionHistoryResponse, SessionError>(SessionError::CorruptData)
    } else {
        match stored_log_of(s, id) {
            StoredLog::Missing => r == Err::<SessionHistoryResponse, SessionError>(
                SessionError::NotFound,
            ),
            StoredLog::Corrupt => r == Err::<SessionHistoryResponse, SessionError>(
                SessionError::CorruptData,
            ),
            StoredLog::Present(msgs) => r matches Ok(h) && h.session_id@ == id && h.messages@
                == msgs@ && match stored_metadata_of(s, id) {
                StoredMetadata::Present(m) => h.metadata == m,
                StoredMetadata::Missing => is_default_metadata(h.metadata),
                StoredMetadata::Corrupt => false,
            },
        }
    }
}

/// Reads one session's full history: metadata (default when none was
/// persisted) and the ordered message log.
pub fn get_session_history(catalog: &Catalog, session_id: &str) -> (r: Result<
    SessionHistoryResponse,
    SessionError,
>)
    requires
        catalog.wf(),
    ensures
        history_post(catalog.entries@, session_id@, r),
{
    let loc = match resolve(session_id) {
        Ok(l) => l,
        Err(e) => {
            return Err(e);
        },
    };
    let metadata = match catalog.read_metadata(&loc) {
        Ok(m) => m,
        Err(e) => {
            return Err(e);
        },
    };
    let messages = match catalog.read_messages(&loc) {
        Ok(v) => v,
        Err(e) => {
            return Err(e);
        },
    };
    Ok(SessionHistoryResponse { session_id: String::from_str(session_id), metadata, messages })
}

/// Round trip: a metadata record committed by an update is read back
/// field-for-field — including an empty description and absent token
/// fields, which are values like any other.
pub proof fn lemma_metadata_roundtrip(
    s1: Seq<SessionEntry>,
    s2: Seq<SessionEntry>,
    name: Seq<char>,
    m: SessionMetadata,
    r: Result<SessionMetadata, SessionError>,
)
    requires
        wf_entries(s1),
        contains_id(s1, name),
        s2 == set_metadata(s1, name, StoredMetadata::Present(m)),
        read_metadata_post(s2, name, r),
    ensures
        r == Ok::<SessionMetadata, SessionError>(m),
{
    lemma_set_metadata_effect(s1, name, StoredMetadata::Present(m));
}

/// Atomicity: an update is one whole-record transition.  A read that comes
/// after it observes exactly the committed record — never a record mixing
/// fields of the two versions — and a read of any other location observes
/// what it observed before, so interleaved readers see the prior record or
/// the new one and nothing else.
pub proof fn lemma_update_atomic(
    s1: Seq<SessionEntry>,
    s2: Seq<SessionEntry>,
    name: Seq<char>,
    m: SessionMetadata,
)
    requires
        wf_entries(s1),
        contains_id(s1, name),
        s2 == set_metadata(s1, name, StoredMetadata::Present(m)),
    ensures
        wf_entries(s2),
        stored_metadata_of(s2, name) == StoredMetadata::Present(m),
        stored_log_of(s2, name) == stored_log_of(s1, name),
        forall|other: Seq<char>| other != name ==> #[trigger] stored_metadata_of(s2, other)
            == stored_metadata_of(s1, other),
        forall|other: Seq<char>| other != name ==> #[trigger] stored_log_of(s2, other)
            == stored_log_of(s1, other),
{
    lemma_set_metadata_effect(s1, name, StoredMetadata::Present(m));
}

/// An in-place replacement of the entry at `i` keeps the catalog well-formed
/// when the identifier and the messages' well-formedness are kept.
proof fn lemma_appended_wf(s1: Seq<SessionEntry>, s2: Seq<SessionEntry>, i: int, name: Seq<char>)
    requires
        wf_entries(s1),
        0 <= i < s1.len(),
        s2.len() == s1.len(),
        forall|j: int| 0 <= j < s1.len() && j != i ==> s2[j] == s1[j],
        s2[i].id == s1[i].id,
        wf_entry(s2[i]),
    ensures
        wf_entries(s2),
{
    assert(forall|j: int| 0 <= j < s2.len() ==> s2[j].id@ == s1[j].id@);
}

} // verus!

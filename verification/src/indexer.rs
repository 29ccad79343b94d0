//! The workspace index: which files it takes in, and the content hash by
//! which it sees that a file changed.
use vstd::prelude::*;
use sha2::Digest;
use crate::text::{chars_equal, chars_of, contains, ends_with, str_contains, str_ends_with};

verus! {

/// One full-text search result: a file and the matching excerpt.
#[derive(Debug, Clone)]
pub struct SearchHit {
    pub path: String,
    pub snippet: String,
}

/// The index of a workspace, kept in the SQLite database at `db_path`.
#[derive(Debug, Clone)]
pub struct Indexer {
    db_path: String,
}

impl View for Indexer {
    type V = Seq<char>;

    closed spec fn view(&self) -> Seq<char> {
        self.db_path@
    }
}

impl Indexer {
    /// An index kept at `db_path`.
    pub fn new(db_path: String) -> (r: Indexer)
        ensures
            r@ == db_path@,
    {
        Indexer { db_path }
    }

    /// Where the index is kept.
    pub fn db_path(&self) -> (r: &str)
        ensures
            r@ == self@,
    {
        self.db_path.as_str()
    }
}

/// What SHA-256 makes of `data`.
pub uninterp spec fn sha256(data: Seq<u8>) -> Seq<u8>;

/// Calls `Sha256::digest`: the SHA-256 digest of `data`, 32 bytes long.
#[verifier::external_body]
fn sha256_digest(data: &[u8]) -> (r: Vec<u8>)
    ensures
        r@ == sha256(data@),
        r@.len() == 32,
{
    sha2::Sha256::digest(data).to_vec()
}

/// The lowercase hexadecimal digit for `d < 16`.
pub open spec fn hex_digit(d: int) -> char {
    if d < 10 {
        (d + 48) as char
    } else {
        (d + 87) as char
    }
}

/// Two lowercase hexadecimal digits per byte, high nibble first.
pub open spec fn hex_lower(bytes: Seq<u8>) -> Seq<char>
    decreases bytes.len(),
{
    if bytes.len() == 0 {
        seq![]
    } else {
        hex_lower(bytes.drop_last()) + seq![
            hex_digit(bytes.last() as int / 16),
            hex_digit(bytes.last() as int % 16),
        ]
    }
}

/// Calls `hex::encode`: two digits of `0123456789abcdef` per byte, high
/// nibble first.
#[verifier::external_body]
fn hex_encode(bytes: &[u8]) -> (r: String)
    ensures
        r@ == hex_lower(bytes@),
{
    hex::encode(bytes)
}

/// A lowercase hexadecimal digit.
pub open spec fn is_hex_char(c: char) -> bool {
    ('0' <= c <= '9') || ('a' <= c <= 'f')
}

/// The hex form of `n` bytes has `2 * n` digits.
pub proof fn lemma_hex_lower(bytes: Seq<u8>)
    ensures
        hex_lower(bytes).len() == 2 * bytes.len(),
        forall|i: int| 0 <= i < hex_lower(bytes).len() ==> is_hex_char(#[trigger] hex_lower(bytes)[i]),
    decreases bytes.len(),
{
    if bytes.len() > 0 {
        lemma_hex_lower(bytes.drop_last());
        let h = hex_lower(bytes.drop_last());
        let b = bytes.last();
        assert(is_hex_char(hex_digit(b as int / 16)));
        assert(is_hex_char(hex_digit(b as int % 16)));
        assert forall|i: int| 0 <= i < hex_lower(bytes).len() implies is_hex_char(
            #[trigger] hex_lower(bytes)[i],
        ) by {
            if i < h.len() {
                assert(hex_lower(bytes)[i] == h[i]);
            }
        }
    }
}

/// The content hash of a file: the SHA-256 digest of its UTF-8 bytes, in
/// lowercase hexadecimal.
pub open spec fn content_hash(content: Seq<char>) -> Seq<char> {
    hex_lower(sha256(vstd::utf8::encode_utf8(content)))
}

/// The content hash of `content`; always 64 lowercase hexadecimal digits.
pub fn hash_content(content: &str) -> (r: String)
    ensures
        r@ == content_hash(content@),
        r@.len() == 64,
        forall|i: int| 0 <= i < 64 ==> is_hex_char(#[trigger] r@[i]),
{
    let digest = sha256_digest(content.as_bytes());
    let r = hex_encode(digest.as_slice());
    proof {
        lemma_hex_lower(digest@);
    }
    r
}

/// The index leaves out files under `.git` or `target` and PNG or JPEG
/// images.
pub open spec fn skipped(path: Seq<char>) -> bool {
    ||| contains(path, "/.git/"@)
    ||| contains(path, "/target/"@)
    ||| ends_with(path, ".png"@)
    ||| ends_with(path, ".jpg"@)
}

proof fn lemma_contains_at(s: Seq<char>, p: Seq<char>, n: int)
    requires
        p.len() == n,
    ensures
        contains(s, p) <==> exists|i: int| 0 <= i && i + n <= s.len() && #[trigger] s.subrange(i, i + n) == p,
{
    if contains(s, p) {
        let i = choose|i: int| crate::text::occurs_at(s, p, i);
        assert(s.subrange(i, i + n) == p);
    }
    if exists|i: int| 0 <= i && i + n <= s.len() && #[trigger] s.subrange(i, i + n) == p {
        let i = choose|i: int| 0 <= i && i + n <= s.len() && #[trigger] s.subrange(i, i + n) == p;
        assert(crate::text::occurs_at(s, p, i));
    }
}

/// A path is left out of the index exactly when it holds `/.git/` or
/// `/target/` as a whole piece between separators, or ends with `.png` or
/// `.jpg`; a file whose name merely begins with `target` (such as
/// `src/target.rs`) is indexed.
pub proof fn lemma_skipped_paths(path: Seq<char>)
    ensures
        skipped(path) <==> (exists|i: int|
            0 <= i && i + 6 <= path.len() && #[trigger] path.subrange(i, i + 6) == "/.git/"@)
            || (exists|i: int|
            0 <= i && i + 8 <= path.len() && #[trigger] path.subrange(i, i + 8) == "/target/"@)
            || (path.len() >= 4 && path.subrange(path.len() - 4, path.len() as int) == ".png"@)
            || (path.len() >= 4 && path.subrange(path.len() - 4, path.len() as int) == ".jpg"@),
        !skipped("src/target.rs"@),
        !skipped("README.md"@),
{
    reveal_strlit("/.git/");
    reveal_strlit("/target/");
    reveal_strlit(".png");
    reveal_strlit(".jpg");
    lemma_contains_at(path, "/.git/"@, 6);
    lemma_contains_at(path, "/target/"@, 8);
    reveal_strlit("src/target.rs");
    reveal_strlit("README.md");
    let p = "src/target.rs"@;
    assert forall|i: int| 0 <= i && i + 8 <= p.len() implies #[trigger] p.subrange(i, i + 8)
        != "/target/"@ by {
        if p.subrange(i, i + 8) == "/target/"@ {
            assert(p.subrange(i, i + 8)[7] == p[i + 7]);
            assert(p.subrange(i, i + 8)[0] == p[i]);
        }
    }
    assert forall|i: int| 0 <= i && i + 6 <= p.len() implies #[trigger] p.subrange(i, i + 6)
        != "/.git/"@ by {
        if p.subrange(i, i + 6) == "/.git/"@ {
            assert(p.subrange(i, i + 6)[1] == p[i + 1]);
            assert(p.subrange(i, i + 6)[0] == p[i]);
        }
    }
    assert(p.subrange(p.len() - 4, p.len() as int)[1] == p[10]);
    let q = "README.md"@;
    assert forall|i: int| 0 <= i && i + 6 <= q.len() implies #[trigger] q.subrange(i, i + 6)
        != "/.git/"@ by {
        if q.subrange(i, i + 6) == "/.git/"@ {
            assert(q.subrange(i, i + 6)[0] == q[i]);
        }
    }
    assert forall|i: int| 0 <= i && i + 8 <= q.len() implies #[trigger] q.subrange(i, i + 8)
        != "/target/"@ by {
        if q.subrange(i, i + 8) == "/target/"@ {
            assert(q.subrange(i, i + 8)[0] == q[i]);
        }
    }
    assert(q.subrange(q.len() - 4, q.len() as int)[1] == q[6]);
}

/// Whether the file at the workspace-relative `path` is left out of the index.
pub fn should_skip(path: &str) -> (b: bool)
    ensures
        b == skipped(path@),
{
    str_contains(path, "/.git/") || str_contains(path, "/target/") || str_ends_with(path, ".png")
        || str_ends_with(path, ".jpg")
}

/// Whether a file whose content hash is `hash` is indexed already, given the
/// hash that the index holds for it (`None` when it holds none).
pub fn hash_unchanged(old_hash: Option<&str>, hash: &str) -> (b: bool)
    ensures
        b == (old_hash matches Some(h) && h@ == hash@),
{
    match old_hash {
        Some(h) => chars_equal(&chars_of(h), &chars_of(hash)),
        None => false,
    }
}

/// What the workspace walk reports to an indexing run.
pub enum IndexEvent {
    /// The next entry of the walk: whether it is a file, and its path
    /// relative to the workspace where it has one.
    Entry { is_file: bool, relative_path: Option<String> },
    /// The file's text, where it could be read as UTF-8.
    Content(Option<String>),
    /// The hash the index holds for the file, where it holds one.
    StoredHash(Option<String>),
}

/// What an indexing run asks the walk to do next.
pub enum IndexAction {
    /// Go on to the next entry.
    NextEntry,
    /// Read the file and report its text.
    ReadFile { relative_path: String },
    /// Look up the hash the index holds for the file.
    LookupHash { relative_path: String },
    /// Put the file's text and hash in the index, then go on.
    Store { relative_path: String, content: String, hash: String },
}

/// Where an indexing run is in the work on one file.
pub enum IndexPhase {
    AwaitingEntry,
    AwaitingContent { relative_path: String },
    AwaitingStoredHash { relative_path: String, content: String, hash: String },
}

/// The texts of an event.
pub enum EventView {
    Entry { is_file: bool, relative_path: Option<Seq<char>> },
    Content(Option<Seq<char>>),
    StoredHash(Option<Seq<char>>),
}

/// The texts of an action.
pub enum ActionView {
    NextEntry,
    ReadFile(Seq<char>),
    LookupHash(Seq<char>),
    Store(Seq<char>, Seq<char>, Seq<char>),
}

/// The texts of a phase.
pub enum PhaseView {
    AwaitingEntry,
    AwaitingContent(Seq<char>),
    AwaitingStoredHash(Seq<char>, Seq<char>, Seq<char>),
}

/// The state of an indexing run: the files stored so far, and the phase.
pub struct IndexRunView {
    pub updated: nat,
    pub phase: PhaseView,
}

pub open spec fn opt_string_view(o: Option<String>) -> Option<Seq<char>> {
    match o {
        Some(s) => Some(s@),
        None => None,
    }
}

pub open spec fn event_view(e: IndexEvent) -> EventView {
    match e {
        IndexEvent::Entry { is_file, relative_path } => EventView::Entry {
            is_file,
            relative_path: opt_string_view(relative_path),
        },
        IndexEvent::Content(c) => EventView::Content(opt_string_view(c)),
        IndexEvent::StoredHash(h) => EventView::StoredHash(opt_string_view(h)),
    }
}

pub open spec fn action_view(a: IndexAction) -> ActionView {
    match a {
        IndexAction::NextEntry => ActionView::NextEntry,
        IndexAction::ReadFile { relative_path } => ActionView::ReadFile(relative_path@),
        IndexAction::LookupHash { relative_path } => ActionView::LookupHash(relative_path@),
        IndexAction::Store { relative_path, content, hash } => ActionView::Store(
            relative_path@,
            content@,
            hash@,
        ),
    }
}

pub open spec fn phase_view(p: IndexPhase) -> PhaseView {
    match p {
        IndexPhase::AwaitingEntry => PhaseView::AwaitingEntry,
        IndexPhase::AwaitingContent { relative_path } => PhaseView::AwaitingContent(
            relative_path@,
        ),
        IndexPhase::AwaitingStoredHash { relative_path, content, hash } =>
            PhaseView::AwaitingStoredHash(relative_path@, content@, hash@),
    }
}

/// The event that a phase waits for.
pub open spec fn awaits(phase: PhaseView, event: EventView) -> bool {
    match phase {
        PhaseView::AwaitingEntry => event is Entry,
        PhaseView::AwaitingContent(_) => event is Content,
        PhaseView::AwaitingStoredHash(_, _, _) => event is StoredHash,
    }
}

/// One step of indexing a workspace: an entry that is a file with a
/// relative path not left out is read; a file that reads as text is hashed
/// and its stored hash looked up; a file whose hash changed is stored and
/// counted. Everything else goes on to the next entry.
pub open spec fn index_step(st: IndexRunView, event: EventView) -> (IndexRunView, ActionView) {
    let idle = IndexRunView { updated: st.updated, phase: PhaseView::AwaitingEntry };
    match (st.phase, event) {
        (PhaseView::AwaitingEntry, EventView::Entry { is_file, relative_path }) => match relative_path {
            Some(p) => if is_file && !skipped(p) {
                (
                    IndexRunView { updated: st.updated, phase: PhaseView::AwaitingContent(p) },
                    ActionView::ReadFile(p),
                )
            } else {
                (idle, ActionView::NextEntry)
            },
            None => (idle, ActionView::NextEntry),
        },
        (PhaseView::AwaitingContent(p), EventView::Content(c)) => match c {
            Some(text) => (
                IndexRunView {
                    updated: st.updated,
                    phase: PhaseView::AwaitingStoredHash(p, text, content_hash(text)),
                },
                ActionView::LookupHash(p),
            ),
            None => (idle, ActionView::NextEntry),
        },
        (PhaseView::AwaitingStoredHash(p, text, hash), EventView::StoredHash(old)) => {
            if old == Some(hash) {
                (idle, ActionView::NextEntry)
            } else {
                (
                    IndexRunView { updated: st.updated + 1, phase: PhaseView::AwaitingEntry },
                    ActionView::Store(p, text, hash),
                )
            }
        },
        _ => (st, ActionView::NextEntry),
    }
}

/// A run that indexes a workspace, file by file.
pub struct IndexRun {
    updated: usize,
    phase: IndexPhase,
}

impl View for IndexRun {
    type V = IndexRunView;

    closed spec fn view(&self) -> IndexRunView {
        IndexRunView { updated: self.updated as nat, phase: phase_view(self.phase) }
    }
}

impl IndexRun {
    /// A run that has stored nothing and waits for the first entry.
    pub fn new() -> (r: IndexRun)
        ensures
            r@.updated == 0,
            r@.phase == PhaseView::AwaitingEntry,
    {
        IndexRun { updated: 0, phase: IndexPhase::AwaitingEntry }
    }

    /// How many files the run has stored.
    pub fn updated(&self) -> (r: usize)
        ensures
            r == self@.updated,
    {
        self.updated
    }

    /// Takes in what the walk reports and says what to do next.
    pub fn step(&mut self, event: IndexEvent) -> (r: IndexAction)
        requires
            awaits(old(self)@.phase, event_view(event)),
            event is StoredHash ==> old(self)@.updated < usize::MAX,
        ensures
            (final(self)@, action_view(r)) == index_step(old(self)@, event_view(event)),
    {
        let mut phase = IndexPhase::AwaitingEntry;
        std::mem::swap(&mut phase, &mut self.phase);
        match (phase, event) {
            (IndexPhase::AwaitingEntry, IndexEvent::Entry { is_file, relative_path }) => {
                match relative_path {
                    Some(p) => {
                        if is_file && !should_skip(p.as_str()) {
                            let q = p.clone();
                            self.phase = IndexPhase::AwaitingContent { relative_path: p };
                            IndexAction::ReadFile { relative_path: q }
                        } else {
                            IndexAction::NextEntry
                        }
                    },
                    None => IndexAction::NextEntry,
                }
            },
            (IndexPhase::AwaitingContent { relative_path }, IndexEvent::Content(c)) => {
                match c {
                    Some(text) => {
                        let hash = hash_content(text.as_str());
                        let q = relative_path.clone();
                        self.phase = IndexPhase::AwaitingStoredHash {
                            relative_path,
                            content: text,
                            hash,
                        };
                        IndexAction::LookupHash { relative_path: q }
                    },
                    None => IndexAction::NextEntry,
                }
            },
            (
                IndexPhase::AwaitingStoredHash { relative_path, content, hash },
                IndexEvent::StoredHash(old),
            ) => {
                let unchanged = match &old {
                    Some(h) => hash_unchanged(Some(h.as_str()), hash.as_str()),
                    None => false,
                };
                if unchanged {
                    IndexAction::NextEntry
                } else {
                    proof {
                        assert(opt_string_view(old) != Some(hash@));
                    }
                    self.updated = self.updated + 1;
                    IndexAction::Store { relative_path, content, hash }
                }
            },
            (phase, _) => {
                self.phase = phase;
                IndexAction::NextEntry
            },
        }
    }
}

/// One entry of the workspace walk as a run sees it: whether it is a file,
/// its path relative to the workspace where it has one, and its text where
/// it reads as UTF-8.
pub struct WalkEntry {
    pub is_file: bool,
    pub relative_path: Option<Seq<char>>,
    pub content: Option<Seq<char>>,
}

/// What the index holds for a path: its hash in the `files` table and its
/// one text in the full-text table.
pub struct IndexedFile {
    pub hash: Seq<char>,
    pub content: Seq<char>,
}

/// The hash the index holds for `p`, where it holds one.
pub open spec fn stored_hash(db: Map<Seq<char>, IndexedFile>, p: Seq<char>) -> Option<Seq<char>> {
    if db.dom().contains(p) {
        Some(db[p].hash)
    } else {
        None
    }
}

/// One entry walked: the walk reports the entry, the file's text and the
/// stored hash as the run asks for them, and a `Store` replaces what the
/// index holds for the path by the file's hash and text.
pub open spec fn walk_entry(st: IndexRunView, db: Map<Seq<char>, IndexedFile>, e: WalkEntry) -> (
    IndexRunView,
    Map<Seq<char>, IndexedFile>,
) {
    let first = index_step(
        st,
        EventView::Entry { is_file: e.is_file, relative_path: e.relative_path },
    );
    match first.1 {
        ActionView::ReadFile(_) => {
            let second = index_step(first.0, EventView::Content(e.content));
            match second.1 {
                ActionView::LookupHash(p) => {
                    let third = index_step(second.0, EventView::StoredHash(stored_hash(db, p)));
                    match third.1 {
                        ActionView::Store(q, c, h) => (
                            third.0,
                            db.insert(q, IndexedFile { hash: h, content: c }),
                        ),
                        _ => (third.0, db),
                    }
                },
                _ => (second.0, db),
            }
        },
        _ => (first.0, db),
    }
}

/// A run over the entries of a walk, in order: its final state and the
/// index it leaves.
pub open spec fn walk(st: IndexRunView, db: Map<Seq<char>, IndexedFile>, entries: Seq<WalkEntry>) -> (
    IndexRunView,
    Map<Seq<char>, IndexedFile>,
)
    decreases entries.len(),
{
    if entries.len() == 0 {
        (st, db)
    } else {
        let next = walk_entry(st, db, entries[0]);
        walk(next.0, next.1, entries.drop_first())
    }
}

/// An entry that the index takes in: a file, with a relative path that is
/// not left out, whose text reads as UTF-8.
pub open spec fn indexable(e: WalkEntry) -> bool {
    &&& e.is_file
    &&& e.relative_path is Some
    &&& !skipped(e.relative_path->0)
    &&& e.content is Some
}

/// Every hash the index holds is the content hash of the text it holds.
pub open spec fn consistent(db: Map<Seq<char>, IndexedFile>) -> bool {
    forall|p: Seq<char>| #[trigger] db.dom().contains(p) ==> db[p].hash == content_hash(db[p].content)
}

/// No two entries of the walk have the same relative path.
pub open spec fn distinct_paths(entries: Seq<WalkEntry>) -> bool {
    forall|i: int, j: int|
        0 <= i < j < entries.len() && (#[trigger] entries[i]).relative_path is Some ==> entries[i].relative_path
            != (#[trigger] entries[j]).relative_path
}

/// Some entry of the walk that the index takes in has the path `p`.
pub open spec fn visits(entries: Seq<WalkEntry>, p: Seq<char>) -> bool {
    exists|i: int| 0 <= i < entries.len() && indexable(#[trigger] entries[i]) && entries[i].relative_path == Some(p)
}

/// The run's state once no file is in progress.
pub open spec fn idle(updated: nat) -> IndexRunView {
    IndexRunView { updated, phase: PhaseView::AwaitingEntry }
}

/// One entry walked from an idle run: a file the index takes in whose hash
/// changed is stored with its content hash and counted; nothing else
/// changes.
pub proof fn lemma_walk_entry(updated: nat, db: Map<Seq<char>, IndexedFile>, e: WalkEntry)
    ensures
        ({
            let r = walk_entry(idle(updated), db, e);
            if indexable(e) && stored_hash(db, e.relative_path->0) != Some(content_hash(e.content->0)) {
                r == (idle(updated + 1), db.insert(
                    e.relative_path->0,
                    IndexedFile { hash: content_hash(e.content->0), content: e.content->0 },
                ))
            } else {
                r == (idle(updated), db)
            }
        }),
{
}

/// A run whose every file the index takes in already holds its content
/// hash stores nothing, counts nothing and ends idle.
pub proof fn lemma_walk_unchanged(updated: nat, db: Map<Seq<char>, IndexedFile>, entries: Seq<WalkEntry>)
    requires
        forall|i: int|
            0 <= i < entries.len() && indexable(#[trigger] entries[i]) ==> stored_hash(
                db,
                entries[i].relative_path->0,
            ) == Some(content_hash(entries[i].content->0)),
    ensures
        walk(idle(updated), db, entries) == (idle(updated), db),
    decreases entries.len(),
{
    if entries.len() > 0 {
        lemma_walk_entry(updated, db, entries[0]);
        let tail = entries.drop_first();
        assert forall|i: int|
            0 <= i < tail.len() && indexable(#[trigger] tail[i]) implies stored_hash(
                db,
                tail[i].relative_path->0,
            ) == Some(content_hash(tail[i].content->0)) by {
            assert(tail[i] == entries[i + 1]);
        }
        lemma_walk_unchanged(updated, db, tail);
    }
}

/// A run over a walk with distinct paths ends idle; each file the index
/// takes in is then held with its content hash, and with its text where
/// the hash it held before differed; what the index
/// holds for every path the walk does not take in (a deleted file) is left
/// as it was; and an index whose hashes match its texts stays so.
#[verifier::spinoff_prover]
#[verifier::rlimit(40)]
pub proof fn lemma_walk_index(updated: nat, db: Map<Seq<char>, IndexedFile>, entries: Seq<WalkEntry>)
    requires
        distinct_paths(entries),
    ensures
        ({
            let r = walk(idle(updated), db, entries);
            &&& r.0.phase == PhaseView::AwaitingEntry
            &&& forall|i: int|
                0 <= i < entries.len() && indexable(#[trigger] entries[i]) ==> {
                    let p = entries[i].relative_path->0;
                    let c = entries[i].content->0;
                    &&& r.1.dom().contains(p)
                    &&& r.1[p].hash == content_hash(c)
                    &&& stored_hash(db, p) != Some(content_hash(c)) ==> r.1[p].content == c
                }
            &&& forall|p: Seq<char>|
                !visits(entries, p) ==> (#[trigger] r.1.dom().contains(p) == db.dom().contains(p)
                    && (db.dom().contains(p) ==> r.1[p] == db[p]))
            &&& consistent(db) ==> consistent(r.1)
        }),
    decreases entries.len(),
{
    if entries.len() > 0 {
        let e = entries[0];
        let tail = entries.drop_first();
        lemma_walk_entry(updated, db, e);
        let next = walk_entry(idle(updated), db, e);
        assert forall|i: int, j: int|
            0 <= i < j < tail.len() && (#[trigger] tail[i]).relative_path is Some implies tail[i].relative_path
            != (#[trigger] tail[j]).relative_path by {
            assert(tail[i] == entries[i + 1] && tail[j] == entries[j + 1]);
        }
        lemma_walk_index(next.0.updated, next.1, tail);
        let r = walk(idle(updated), db, entries);
        assert(r == walk(next.0, next.1, tail));
        assert(next.0 == idle(next.0.updated));
        if consistent(db) {
            assert forall|p: Seq<char>| #[trigger] next.1.dom().contains(p) implies next.1[p].hash
                == content_hash(next.1[p].content) by {
                if !db.dom().contains(p) {
                    assert(next.1 != db);
                }
            }
        }
        assert forall|i: int|
            0 <= i < entries.len() && indexable(#[trigger] entries[i]) implies {
                let p = entries[i].relative_path->0;
                let c = entries[i].content->0;
                &&& r.1.dom().contains(p)
                &&& r.1[p].hash == content_hash(c)
                &&& stored_hash(db, p) != Some(content_hash(c)) ==> r.1[p].content == c
            } by {
            if i == 0 {
                let p = e.relative_path->0;
                if visits(tail, p) {
                    let j = choose|j: int|
                        0 <= j < tail.len() && indexable(#[trigger] tail[j]) && tail[j].relative_path
                            == Some(p);
                    assert(tail[j] == entries[j + 1]);
                    assert(entries[0].relative_path != entries[j + 1].relative_path);
                }
            } else {
                assert(tail[i - 1] == entries[i]);
                assert(entries[0].relative_path != entries[i].relative_path);
                assert(stored_hash(next.1, entries[i].relative_path->0) == stored_hash(
                    db,
                    entries[i].relative_path->0,
                ));
            }
        }
        assert forall|p: Seq<char>| !visits(entries, p) implies (#[trigger] r.1.dom().contains(p)
            == db.dom().contains(p) && (db.dom().contains(p) ==> r.1[p] == db[p])) by {
            if visits(tail, p) {
                let j = choose|j: int|
                    0 <= j < tail.len() && indexable(#[trigger] tail[j]) && tail[j].relative_path
                        == Some(p);
                assert(tail[j] == entries[j + 1]);
            }
            if indexable(e) && e.relative_path == Some(p) {
                assert(indexable(entries[0]));
            }
        }
    }
}

/// A second run over the same walk, with the index the first run left,
/// stores nothing and counts no file: only files whose content hash
/// changed are indexed again.
pub proof fn lemma_second_run_stores_nothing(db: Map<Seq<char>, IndexedFile>, entries: Seq<WalkEntry>)
    requires
        distinct_paths(entries),
    ensures
        ({
            let first = walk(idle(0), db, entries);
            walk(idle(0), first.1, entries) == (idle(0), first.1)
        }),
{
    let first = walk(idle(0), db, entries);
    lemma_walk_index(0, db, entries);
    assert forall|i: int|
        0 <= i < entries.len() && indexable(#[trigger] entries[i]) implies stored_hash(
            first.1,
            entries[i].relative_path->0,
        ) == Some(content_hash(entries[i].content->0)) by {}
    lemma_walk_unchanged(0, first.1, entries);
}

} // verus!

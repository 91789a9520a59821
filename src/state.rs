use vstd::prelude::*;

use crate::files::{contents_for, find_in, lemma_find_in_hit, opt_view, File, Finder};
use crate::qdrant::{other_slot, IndexSlot, SearchHit};

verus! {

/// The single-slot reindex signal: whether a rebuild has been asked for and
/// not yet begun, and whether one is running. Triggers that come while one
/// is pending collapse into it.
#[derive(Clone, Copy, Debug, PartialEq, Eq, Structural)]
pub struct ReindexTrigger {
    pub pending: bool,
    pub running: bool,
}

/// The signal after a trigger.
pub open spec fn rung(t: ReindexTrigger) -> ReindexTrigger {
    ReindexTrigger { pending: true, running: t.running }
}

/// The signal after `n` triggers.
pub open spec fn rung_times(t: ReindexTrigger, n: nat) -> ReindexTrigger
    decreases n,
{
    if n == 0 {
        t
    } else {
        rung(rung_times(t, (n - 1) as nat))
    }
}

/// The signal after the worker looked for work: a pending request is taken
/// when no rebuild runs.
pub open spec fn taken(t: ReindexTrigger) -> ReindexTrigger {
    if t.pending && !t.running {
        ReindexTrigger { pending: false, running: true }
    } else {
        t
    }
}

/// The signal after the running rebuild ended.
pub open spec fn ended(t: ReindexTrigger) -> ReindexTrigger {
    ReindexTrigger { pending: t.pending, running: false }
}

/// How many rebuilds the worker runs, from this signal on, before it waits
/// with nothing pending, when no trigger comes meanwhile.
pub open spec fn runs_until_idle(t: ReindexTrigger) -> nat
    decreases (if t.running {
        2nat
    } else {
        0nat
    }) + (if t.pending {
        1nat
    } else {
        0nat
    }),
{
    if t.running {
        runs_until_idle(ended(t))
    } else if t.pending {
        1 + runs_until_idle(ended(taken(t)))
    } else {
        0
    }
}

impl ReindexTrigger {
    /// Nothing pending, nothing running.
    pub fn new() -> (r: ReindexTrigger)
        ensures
            !r.pending,
            !r.running,
    {
        ReindexTrigger { pending: false, running: false }
    }

    /// Asks for a rebuild; a request already pending absorbs this one.
    pub fn trigger(&mut self)
        ensures
            *final(self) == rung(*old(self)),
    {
        self.pending = true;
    }

    /// Takes the pending request, if any and no rebuild runs: the caller
    /// then runs one rebuild.
    pub fn take(&mut self) -> (r: bool)
        ensures
            r == (old(self).pending && !old(self).running),
            *final(self) == taken(*old(self)),
    {
        if self.pending && !self.running {
            self.pending = false;
            self.running = true;
            true
        } else {
            false
        }
    }

    /// Marks the running rebuild as over.
    pub fn end(&mut self)
        ensures
            *final(self) == ended(*old(self)),
    {
        self.running = false;
    }
}

proof fn lemma_rung_times(t: ReindexTrigger, n: nat)
    requires
        n >= 1,
    ensures
        rung_times(t, n) == rung(t),
    decreases n,
{
    if n > 1 {
        lemma_rung_times(t, (n - 1) as nat);
    } else {
        assert(rung_times(t, 0) == t);
    }
}

/// Any number of triggers, one or more, given while a rebuild runs or
/// before the worker started, leave the signal as one trigger does, and
/// lead to exactly one further rebuild.
pub proof fn lemma_triggers_collapse(t: ReindexTrigger, n: nat)
    requires
        n >= 1,
    ensures
        rung_times(t, n) == rung(t),
        runs_until_idle(rung_times(t, n)) == 1,
{
    lemma_rung_times(t, n);
    let r = rung(t);
    let idle = ReindexTrigger { pending: false, running: false };
    assert(runs_until_idle(idle) == 0);
    let waiting = ReindexTrigger { pending: true, running: false };
    assert(ended(taken(waiting)) == idle);
    assert(runs_until_idle(waiting) == 1);
    if r.running {
        assert(ended(r) == waiting);
    } else {
        assert(r == waiting);
    }
}

/// The published documents that answers are drawn from, the index slot
/// whose collection holds their chunks, and, for the proofs, every set that
/// was ever published. A set is replaced whole, never edited, together with
/// its slot.
pub struct Corpus {
    files: Vec<File>,
    slot: IndexSlot,
    generations: Ghost<Seq<Seq<File>>>,
}

impl Corpus {
    #[verifier::type_invariant]
    spec fn inv(self) -> bool {
        &&& self.generations@.len() >= 1
        &&& self.files@ == self.generations@.last()
        &&& unique_paths(self.files@)
    }

    /// The documents served now.
    pub closed spec fn documents(&self) -> Seq<File> {
        self.files@
    }

    /// The slot whose collection serves searches.
    pub closed spec fn slot_spec(&self) -> IndexSlot {
        self.slot
    }

    /// The sets published so far, oldest first; the first is empty.
    pub closed spec fn generations(&self) -> Seq<Seq<File>> {
        self.generations@
    }

    /// A corpus with no documents, served from the blue slot.
    pub fn new() -> (r: Corpus)
        ensures
            r.documents().len() == 0,
            r.slot_spec() == IndexSlot::Blue,
            r.generations() == seq![Seq::<File>::empty()],
    {
        let ghost g = seq![Seq::<File>::empty()];
        Corpus { files: Vec::new(), slot: IndexSlot::Blue, generations: Ghost(g) }
    }

    /// Replaces the whole set of documents with `files`, and the serving
    /// slot with `slot`, in one step.
    pub fn publish(&mut self, files: Vec<File>, slot: IndexSlot)
        requires
            unique_paths(files@),
        ensures
            final(self).documents() == files@,
            final(self).slot_spec() == slot,
            final(self).generations() == old(self).generations().push(files@),
    {
        let ghost g = self.generations@.push(files@);
        *self = Corpus { files, slot, generations: Ghost(g) };
    }

    /// The slot whose collection serves searches.
    pub fn slot(&self) -> (r: IndexSlot)
        ensures
            r == self.slot_spec(),
    {
        self.slot
    }

    /// The slot that the next rebuild fills: never the serving one.
    pub fn staging_slot(&self) -> (r: IndexSlot)
        ensures
            r == other_slot(self.slot_spec()),
    {
        self.slot.other()
    }

    /// The documents served now: the whole of the set published last, never
    /// documents of one set mixed with those of another.
    pub fn files(&self) -> (r: &Vec<File>)
        ensures
            r@ == self.documents(),
            r@ == self.generations().last(),
            unique_paths(r@),
    {
        proof {
            use_type_invariant(self);
        }
        &self.files
    }

    /// The text of the document that a search hit names, in the documents
    /// served now, which are the whole of the set published last.
    pub fn get_contents(&self, hit: &SearchHit) -> (r: Option<String>)
        ensures
            opt_view(r) == contents_for(self.documents(), *hit),
            self.documents() == self.generations().last(),
            unique_paths(self.documents()),
    {
        proof {
            use_type_invariant(self);
        }
        self.files.get_contents(hit)
    }
}

/// Why a rebuild was abandoned.
#[derive(Clone, Copy, Debug, PartialEq, Eq, Structural)]
pub enum RebuildError {
    /// No revision could be fetched, the transport failed, or the fetched
    /// documents do not have distinct identifiers.
    Fetch,
    /// The backend gave no embeddings, or not one for each chunk.
    Embedding,
    /// The vector index failed, or cannot number all chunks.
    Index,
}

/// Where a rebuild stands: the step whose outcome it waits for, or its end.
#[derive(Clone, Copy, Debug, PartialEq, Eq, Structural)]
pub enum RebuildPhase {
    Fetching,
    Resetting,
    Embedding,
    Upserting,
    Ready,
    Failed,
}

/// What the rebuild asks its driver to do next.
#[derive(Debug)]
pub enum RebuildAction {
    /// Fetch the document tree and load its documents.
    FetchTree,
    /// Drop and recreate the collection of the slot being filled.
    ResetCollection { slot: IndexSlot },
    /// Embed these chunks of one document, all or none.
    EmbedBatch { texts: Vec<String> },
    /// Store the embedding of chunk `chunk` of the last batch under `id`,
    /// with the owning document's identifier as payload, in the collection
    /// of the slot being filled.
    Upsert { id: u64, document_id: String, chunk: usize },
    /// Every chunk is stored: publish the documents.
    Publish,
    /// The rebuild failed and is over.
    Abandon { error: RebuildError },
}

/// Whether `a` asks for the embeddings of exactly `texts`.
pub open spec fn asks_to_embed(a: RebuildAction, texts: Seq<Seq<char>>) -> bool {
    match a {
        RebuildAction::EmbedBatch { texts: t } => t@.map_values(|s: String| s@) == texts,
        _ => false,
    }
}

/// Whether `a` asks to store chunk `chunk` of the last batch as point `id`
/// with payload `document_id`.
pub open spec fn asks_to_upsert(a: RebuildAction, id: int, document_id: Seq<char>, chunk: int) -> bool {
    match a {
        RebuildAction::Upsert { id: i, document_id: p, chunk: c } => i == id && p@ == document_id
            && c == chunk,
        _ => false,
    }
}

/// No two documents share an identifier.
pub open spec fn unique_paths(fs: Seq<File>) -> bool {
    forall|i: int, j: int| 0 <= i < j < fs.len() ==> #[trigger] fs[i].path@ != #[trigger] fs[j].path@
}

/// Whether no two documents share an identifier.
pub fn paths_unique(files: &Vec<File>) -> (r: bool)
    ensures
        r == unique_paths(files@),
{
    let n = files.len();
    for j in 0..n
        invariant
            n == files@.len(),
            forall|a: int, b: int| 0 <= a < b < j ==> #[trigger] files@[a].path@ != #[trigger] files@[b].path@,
    {
        for i in 0..j
            invariant
                n == files@.len(),
                j < n,
                forall|a: int, b: int| 0 <= a < b < j ==> #[trigger] files@[a].path@ != #[trigger] files@[b].path@,
                forall|a: int| 0 <= a < i ==> #[trigger] files@[a].path@ != files@[j as int].path@,
        {
            if files[i].path == files[j].path {
                return false;
            }
        }
    }
    true
}

/// The number of chunks in the first `d` documents.
pub open spec fn chunks_before(fs: Seq<File>, d: int) -> nat
    decreases d,
{
    if d <= 0 || fs.len() == 0 {
        0
    } else if d > fs.len() {
        chunks_before(fs, fs.len() as int)
    } else {
        chunks_before(fs, d - 1) + fs[d - 1].sentences@.len()
    }
}

proof fn lemma_chunks_before_mono(fs: Seq<File>, d: int, e: int)
    requires
        0 <= d <= e <= fs.len(),
    ensures
        chunks_before(fs, d) <= chunks_before(fs, e),
    decreases e - d,
{
    if d < e {
        lemma_chunks_before_mono(fs, d, e - 1);
    }
}

/// The number of chunks of all documents, where it fits in `u64`.
pub fn chunk_total(files: &Vec<File>) -> (r: Option<u64>)
    ensures
        r is Some <==> chunks_before(files@, files@.len() as int) <= u64::MAX,
        r matches Some(n) ==> n == chunks_before(files@, files@.len() as int),
{
    let mut total: u64 = 0;
    let mut i: usize = 0;
    while i < files.len()
        invariant
            i <= files@.len(),
            total == chunks_before(files@, i as int),
        decreases files@.len() - i,
    {
        match total.checked_add(files[i].sentences.len() as u64) {
            Some(t) => {
                total = t;
            },
            None => {
                proof {
                    lemma_chunks_before_mono(files@, i + 1, files@.len() as int);
                }
                return None;
            },
        }
        i = i + 1;
    }
    Some(total)
}

/// One full rebuild of the index and the corpus, as a machine that its
/// driver feeds with the outcome of each step it asks for. Points get ids
/// densely from zero, in the order of documents and of their chunks.
pub struct Rebuild {
    phase: RebuildPhase,
    target: IndexSlot,
    files: Vec<File>,
    doc: usize,
    chunk: usize,
    next_id: u64,
    error: RebuildError,
    /// The payload of each point stored, by id.
    points: Ghost<Seq<Seq<char>>>,
    /// The id of the point stored for chunk `c` of document `d`.
    id_of: Ghost<Map<(int, int), int>>,
}

impl Rebuild {
    /// Whether chunk `c` of document `d` is stored in the index.
    pub closed spec fn stored(&self, d: int, c: int) -> bool {
        &&& 0 <= d < self.files@.len()
        &&& 0 <= c < self.files@[d].sentences@.len()
        &&& (d < self.doc || (d == self.doc && c < self.chunk))
    }

    /// The rebuild's bookkeeping agrees with its phase, and every chunk
    /// stored so far has a point whose payload is its document's identifier.
    pub closed spec fn wf(&self) -> bool {
        let fs = self.files@;
        &&& self.doc <= fs.len()
        &&& self.next_id == self.points@.len()
        &&& (self.phase == RebuildPhase::Fetching || self.phase == RebuildPhase::Resetting) ==> {
            &&& self.doc == 0
            &&& self.chunk == 0
            &&& self.next_id == 0
        }
        &&& (self.phase == RebuildPhase::Resetting || self.phase == RebuildPhase::Embedding
            || self.phase == RebuildPhase::Upserting || self.phase == RebuildPhase::Ready) ==> {
            &&& unique_paths(fs)
            &&& chunks_before(fs, fs.len() as int) <= u64::MAX
            &&& self.next_id == chunks_before(fs, self.doc as int) + self.chunk
        }
        &&& self.phase == RebuildPhase::Embedding ==> {
            &&& self.doc < fs.len()
            &&& self.chunk == 0
            &&& fs[self.doc as int].sentences@.len() > 0
        }
        &&& self.phase == RebuildPhase::Upserting ==> {
            &&& self.doc < fs.len()
            &&& self.chunk < fs[self.doc as int].sentences@.len()
        }
        &&& self.phase == RebuildPhase::Ready ==> self.doc == fs.len() && self.chunk == 0
        &&& self.points_ok()
    }

    /// Every chunk stored so far has a point whose payload is its
    /// document's identifier.
    closed spec fn points_ok(&self) -> bool {
        forall|d: int, c: int|
            #[trigger] self.stored(d, c) ==> {
                &&& self.id_of@.contains_key((d, c))
                &&& 0 <= self.id_of@[(d, c)] < self.points@.len()
                &&& self.points@[self.id_of@[(d, c)]] == self.files@[d].path@
            }
    }

    proof fn lemma_points_ok_kept(&self, other: &Rebuild)
        requires
            self.points_ok(),
            other.files == self.files,
            other.doc == self.doc,
            other.chunk == self.chunk,
            other.points == self.points,
            other.id_of == self.id_of,
        ensures
            other.points_ok(),
    {
        assert forall|d: int, c: int| #[trigger] other.stored(d, c) implies {
            &&& other.id_of@.contains_key((d, c))
            &&& 0 <= other.id_of@[(d, c)] < other.points@.len()
            &&& other.points@[other.id_of@[(d, c)]] == other.files@[d].path@
        } by {
            assert(self.stored(d, c));
        }
    }

    pub closed spec fn phase_spec(&self) -> RebuildPhase {
        self.phase
    }

    /// The documents being indexed.
    pub closed spec fn documents(&self) -> Seq<File> {
        self.files@
    }

    /// The payload of each point stored so far, by id.
    pub closed spec fn points(&self) -> Seq<Seq<char>> {
        self.points@
    }

    /// The id of the point stored for chunk `c` of document `d`.
    pub closed spec fn point_of(&self, d: int, c: int) -> int {
        self.id_of@[(d, c)]
    }

    /// The slot whose collection the rebuild fills.
    pub closed spec fn target_spec(&self) -> IndexSlot {
        self.target
    }

    /// The slot whose collection the rebuild fills.
    pub fn target(&self) -> (r: IndexSlot)
        ensures
            r == self.target_spec(),
    {
        self.target
    }

    /// The error a failed rebuild ended with.
    pub closed spec fn error_spec(&self) -> RebuildError {
        self.error
    }

    /// Where the rebuild stands.
    pub fn phase(&self) -> (r: RebuildPhase)
        ensures
            r == self.phase_spec(),
    {
        self.phase
    }

    /// A rebuild that fills the collection of `target`, and first asks for
    /// the document tree.
    pub fn start(target: IndexSlot) -> (r: (Rebuild, RebuildAction))
        ensures
            r.0.target_spec() == target,
            r.0.wf(),
            r.0.phase_spec() == RebuildPhase::Fetching,
            r.0.documents().len() == 0,
            r.0.points().len() == 0,
            r.1 is FetchTree,
    {
        let ghost points = Seq::<Seq<char>>::empty();
        let ghost id_of = Map::<(int, int), int>::empty();
        let r = Rebuild {
            phase: RebuildPhase::Fetching,
            target,
            files: Vec::new(),
            doc: 0,
            chunk: 0,
            next_id: 0,
            error: RebuildError::Fetch,
            points: Ghost(points),
            id_of: Ghost(id_of),
        };
        (r, RebuildAction::FetchTree)
    }
}

/// The first document at or after `from` that has chunks, or the number of
/// documents where none has.
pub open spec fn next_chunked(fs: Seq<File>, from: int) -> int
    decreases fs.len() - from,
{
    if from >= fs.len() {
        fs.len() as int
    } else if fs[from].sentences@.len() > 0 {
        from
    } else {
        next_chunked(fs, from + 1)
    }
}

/// The first document at or after `from` that has chunks, or the number of
/// documents where none has.
fn next_with_chunks(files: &Vec<File>, from: usize) -> (d: usize)
    requires
        from <= files@.len(),
    ensures
        d == next_chunked(files@, from as int),
        from <= d <= files@.len(),
        d < files@.len() ==> files@[d as int].sentences@.len() > 0,
        forall|j: int| from <= j < d ==> #[trigger] files@[j].sentences@.len() == 0,
{
    let mut d = from;
    while d < files.len() && files[d].sentences.len() == 0
        invariant
            from <= d <= files@.len(),
            next_chunked(files@, d as int) == next_chunked(files@, from as int),
            forall|j: int| from <= j < d ==> #[trigger] files@[j].sentences@.len() == 0,
        decreases files@.len() - d,
    {
        d = d + 1;
    }
    d
}

proof fn lemma_chunks_before_skip(fs: Seq<File>, from: int, d: int)
    requires
        0 <= from <= d <= fs.len(),
        forall|j: int| from <= j < d ==> #[trigger] fs[j].sentences@.len() == 0,
    ensures
        chunks_before(fs, d) == chunks_before(fs, from),
    decreases d - from,
{
    if from < d {
        lemma_chunks_before_skip(fs, from, d - 1);
    }
}

/// Copies of the chunks of a document.
fn chunk_texts(file: &File) -> (r: Vec<String>)
    ensures
        r@.map_values(|s: String| s@) == file.chunks(),
{
    let mut r: Vec<String> = Vec::new();
    for i in 0..file.sentences.len()
        invariant
            r@.map_values(|s: String| s@) == file.chunks().take(i as int),
    {
        r.push(file.sentences[i].clone());
        assert(file.chunks().take(i + 1) == file.chunks().take(i as int).push(
            file.sentences@[i as int]@,
        ));
    }
    assert(file.chunks().take(file.sentences@.len() as int) == file.chunks());
    r
}

impl Rebuild {
    /// The document and chunk that the rebuild works on.
    pub closed spec fn position(&self) -> (int, int) {
        (self.doc as int, self.chunk as int)
    }

    /// Whether the rebuild still waits for the outcome of a step.
    pub open spec fn in_progress(&self) -> bool {
        self.phase_spec() != RebuildPhase::Ready && self.phase_spec() != RebuildPhase::Failed
    }

    /// What the rebuild asks for once the chunks before document `from`
    /// are stored: the next batch of chunks, or to publish.
    fn embed_from(&mut self, from: usize) -> (a: RebuildAction)
        requires
            from <= old(self).files@.len(),
            old(self).chunk == 0,
            unique_paths(old(self).files@),
            chunks_before(old(self).files@, old(self).files@.len() as int) <= u64::MAX,
            old(self).next_id == chunks_before(old(self).files@, from as int),
            old(self).next_id == old(self).points@.len(),
            forall|d: int, c: int|
                0 <= d < from && 0 <= c < old(self).files@[d].sentences@.len() ==> {
                    &&& old(self).id_of@.contains_key((d, c))
                    &&& 0 <= old(self).id_of@[(d, c)] < old(self).points@.len()
                    &&& old(self).points@[old(self).id_of@[(d, c)]]
                        == old(self).files@[d].path@
                },
        ensures
            final(self).wf(),
            final(self).files == old(self).files,
            final(self).target == old(self).target,
            final(self).points == old(self).points,
            final(self).id_of == old(self).id_of,
            final(self).doc == next_chunked(old(self).files@, from as int),
            final(self).doc >= from,
            final(self).chunk == 0,
            final(self).phase == RebuildPhase::Ready <==> final(self).doc == old(self).files@.len(),
            final(self).phase == RebuildPhase::Ready || final(self).phase
                == RebuildPhase::Embedding,
            final(self).phase == RebuildPhase::Ready ==> a is Publish,
            final(self).phase == RebuildPhase::Embedding ==> asks_to_embed(
                a,
                old(self).files@[final(self).doc as int].chunks(),
            ),
    {
        let d = next_with_chunks(&self.files, from);
        proof {
            lemma_chunks_before_skip(self.files@, from as int, d as int);
        }
        self.doc = d;
        if d == self.files.len() {
            self.phase = RebuildPhase::Ready;
            RebuildAction::Publish
        } else {
            self.phase = RebuildPhase::Embedding;
            let texts = chunk_texts(&self.files[d]);
            RebuildAction::EmbedBatch { texts }
        }
    }

    /// The document tree was fetched and loaded: the rebuild goes on to
    /// reset the collection it fills, unless two documents share an
    /// identifier (a fetch error) or there are too many chunks to number.
    pub fn fetched(&mut self, files: Vec<File>) -> (a: RebuildAction)
        requires
            old(self).wf(),
            old(self).phase_spec() == RebuildPhase::Fetching,
        ensures
            final(self).wf(),
            final(self).documents() == files@,
            final(self).target_spec() == old(self).target_spec(),
            final(self).points() == old(self).points(),
            unique_paths(files@) && chunks_before(files@, files@.len() as int) <= u64::MAX ==> {
                &&& final(self).phase_spec() == RebuildPhase::Resetting
                &&& a == (RebuildAction::ResetCollection { slot: old(self).target_spec() })
            },
            !unique_paths(files@) ==> {
                &&& final(self).phase_spec() == RebuildPhase::Failed
                &&& final(self).error_spec() == RebuildError::Fetch
                &&& a == (RebuildAction::Abandon { error: RebuildError::Fetch })
            },
            unique_paths(files@) && chunks_before(files@, files@.len() as int) > u64::MAX ==> {
                &&& final(self).phase_spec() == RebuildPhase::Failed
                &&& final(self).error_spec() == RebuildError::Index
                &&& a == (RebuildAction::Abandon { error: RebuildError::Index })
            },
    {
        let unique = paths_unique(&files);
        let total = chunk_total(&files);
        self.files = files;
        if !unique {
            self.phase = RebuildPhase::Failed;
            self.error = RebuildError::Fetch;
            return RebuildAction::Abandon { error: RebuildError::Fetch };
        }
        match total {
            Some(_) => {
                self.phase = RebuildPhase::Resetting;
                RebuildAction::ResetCollection { slot: self.target }
            },
            None => {
                self.phase = RebuildPhase::Failed;
                self.error = RebuildError::Index;
                RebuildAction::Abandon { error: RebuildError::Index }
            },
        }
    }

    /// The collection was reset: the rebuild asks for the embeddings of the
    /// first document that has chunks, or to publish where none has.
    pub fn collection_reset(&mut self) -> (a: RebuildAction)
        requires
            old(self).wf(),
            old(self).phase_spec() == RebuildPhase::Resetting,
        ensures
            final(self).wf(),
            final(self).documents() == old(self).documents(),
            final(self).target_spec() == old(self).target_spec(),
            final(self).points() == old(self).points(),
            final(self).position() == (next_chunked(old(self).documents(), 0), 0int),
            final(self).phase_spec() == RebuildPhase::Ready <==> final(self).position().0
                == old(self).documents().len(),
            final(self).phase_spec() == RebuildPhase::Ready ==> a is Publish,
            final(self).phase_spec() == RebuildPhase::Embedding ==> asks_to_embed(
                a,
                final(self).documents()[final(self).position().0].chunks(),
            ),
            final(self).phase_spec() == RebuildPhase::Ready || final(self).phase_spec()
                == RebuildPhase::Embedding,
    {
        proof {
            assert(chunks_before(self.files@, 0) == 0);
        }
        self.embed_from(0)
    }

    /// The backend returned `count` embeddings for the batch: one for each
    /// chunk lets the rebuild store the first of them; any other number
    /// fails it, and none of the batch is used.
    pub fn embedded(&mut self, count: usize) -> (a: RebuildAction)
        requires
            old(self).wf(),
            old(self).phase_spec() == RebuildPhase::Embedding,
        ensures
            final(self).wf(),
            final(self).documents() == old(self).documents(),
            final(self).target_spec() == old(self).target_spec(),
            final(self).points() == old(self).points(),
            count == old(self).documents()[old(self).position().0].sentences@.len() ==> {
                &&& final(self).phase_spec() == RebuildPhase::Upserting
                &&& final(self).position() == old(self).position()
                &&& asks_to_upsert(
                    a,
                    old(self).points().len() as int,
                    old(self).documents()[old(self).position().0].path@,
                    0,
                )
            },
            count != old(self).documents()[old(self).position().0].sentences@.len() ==> {
                &&& final(self).phase_spec() == RebuildPhase::Failed
                &&& final(self).error_spec() == RebuildError::Embedding
                &&& a == (RebuildAction::Abandon { error: RebuildError::Embedding })
            },
    {
        let ghost old_self = *self;
        if count != self.files[self.doc].sentences.len() {
            self.phase = RebuildPhase::Failed;
            self.error = RebuildError::Embedding;
            proof {
                old_self.lemma_points_ok_kept(self);
            }
            return RebuildAction::Abandon { error: RebuildError::Embedding };
        }
        self.phase = RebuildPhase::Upserting;
        proof {
            old_self.lemma_points_ok_kept(self);
        }
        RebuildAction::Upsert {
            id: self.next_id,
            document_id: self.files[self.doc].path.clone(),
            chunk: 0,
        }
    }

    /// The point for the current chunk was stored: the rebuild asks to
    /// store the next chunk of the document, then for the next batch, then
    /// to publish.
    pub fn upserted(&mut self) -> (a: RebuildAction)
        requires
            old(self).wf(),
            old(self).phase_spec() == RebuildPhase::Upserting,
        ensures
            final(self).wf(),
            final(self).documents() == old(self).documents(),
            final(self).target_spec() == old(self).target_spec(),
            final(self).points() == old(self).points().push(
                old(self).documents()[old(self).position().0].path@,
            ),
            final(self).point_of(old(self).position().0, old(self).position().1) == old(self).points().len(),
            old(self).position().1 + 1 < old(self).documents()[old(self).position().0].sentences@.len() ==> {
                &&& final(self).phase_spec() == RebuildPhase::Upserting
                &&& final(self).position() == (old(self).position().0, old(self).position().1 + 1)
            },
            old(self).position().1 + 1 >= old(self).documents()[old(self).position().0].sentences@.len() ==> {
                &&& final(self).position().0 == next_chunked(
                    old(self).documents(),
                    old(self).position().0 + 1,
                )
                &&& final(self).position().1 == 0
                &&& (final(self).phase_spec() == RebuildPhase::Ready <==> final(self).position().0 == old(self).documents().len())
            },
            final(self).phase_spec() == RebuildPhase::Upserting ==> {
                &&& final(self).position() == (old(self).position().0, old(self).position().1 + 1)
                &&& asks_to_upsert(
                    a,
                    final(self).points().len() as int,
                    old(self).documents()[old(self).position().0].path@,
                    final(self).position().1,
                )
            },
            final(self).phase_spec() == RebuildPhase::Embedding ==> {
                &&& final(self).position().0 > old(self).position().0
                &&& asks_to_embed(a, final(self).documents()[final(self).position().0].chunks())
            },
            final(self).phase_spec() == RebuildPhase::Ready ==> a is Publish,
            final(self).phase_spec() == RebuildPhase::Upserting || final(self).phase_spec()
                == RebuildPhase::Embedding || final(self).phase_spec() == RebuildPhase::Ready,
    {
        let ghost old_self = *self;
        let n_docs = self.files.len();
        let n_chunks = self.files[self.doc].sentences.len();
        proof {
            self.points@ = self.points@.push(self.files@[self.doc as int].path@);
            self.id_of@ = self.id_of@.insert((self.doc as int, self.chunk as int), self.next_id as int);
            lemma_chunks_before_mono(self.files@, self.doc + 1, self.files@.len() as int);
        }
        self.next_id = self.next_id + 1;
        self.chunk = self.chunk + 1;
        assert forall|d: int, c: int| #[trigger] self.stored(d, c) implies {
            &&& self.id_of@.contains_key((d, c))
            &&& 0 <= self.id_of@[(d, c)] < self.points@.len()
            &&& self.points@[self.id_of@[(d, c)]] == self.files@[d].path@
        } by {
            if (d, c) != (old_self.doc as int, old_self.chunk as int) {
                assert(old_self.stored(d, c));
            }
        }
        if self.chunk < self.files[self.doc].sentences.len() {
            return RebuildAction::Upsert {
                id: self.next_id,
                document_id: self.files[self.doc].path.clone(),
                chunk: self.chunk,
            };
        }
        let from = self.doc + 1;
        self.chunk = 0;
        assert forall|d: int, c: int|
            0 <= d < from && 0 <= c < self.files@[d].sentences@.len() implies {
            &&& self.id_of@.contains_key((d, c))
            &&& 0 <= self.id_of@[(d, c)] < self.points@.len()
            &&& self.points@[self.id_of@[(d, c)]] == self.files@[d].path@
        } by {
            if (d, c) != (old_self.doc as int, old_self.chunk as int) {
                assert(old_self.stored(d, c));
            }
        }
        self.embed_from(from)
    }

    /// A step failed: the rebuild is over, and nothing of it is published.
    pub fn failed(&mut self, error: RebuildError) -> (a: RebuildAction)
        requires
            old(self).wf(),
            old(self).in_progress(),
        ensures
            final(self).wf(),
            final(self).phase_spec() == RebuildPhase::Failed,
            final(self).error_spec() == error,
            final(self).documents() == old(self).documents(),
            final(self).target_spec() == old(self).target_spec(),
            final(self).points() == old(self).points(),
            a == (RebuildAction::Abandon { error }),
    {
        let ghost old_self = *self;
        self.phase = RebuildPhase::Failed;
        self.error = error;
        proof {
            old_self.lemma_points_ok_kept(self);
        }
        RebuildAction::Abandon { error }
    }

    /// Ends the rebuild: a complete one replaces the corpus's documents with
    /// its own and makes its slot the serving one; a failed one leaves the
    /// corpus, and so the serving slot, exactly as they were, and gives its
    /// error.
    pub fn conclude(self, corpus: &mut Corpus) -> (r: Result<(), RebuildError>)
        requires
            self.wf(),
            !self.in_progress(),
        ensures
            self.phase_spec() == RebuildPhase::Ready ==> {
                &&& r is Ok
                &&& final(corpus).documents() == self.documents()
                &&& final(corpus).slot_spec() == self.target_spec()
                &&& final(corpus).generations() == old(corpus).generations().push(
                    self.documents(),
                )
            },
            self.phase_spec() == RebuildPhase::Failed ==> {
                &&& r == Err::<(), RebuildError>(self.error_spec())
                &&& *final(corpus) == *old(corpus)
            },
    {
        match self.phase {
            RebuildPhase::Ready => {
                corpus.publish(self.files, self.target);
                Ok(())
            },
            _ => Err(self.error),
        }
    }
}

/// Round trip: in a complete rebuild every chunk of every document has a
/// point whose payload is that document's identifier, and looking the
/// payload up in the documents that the rebuild publishes finds that same
/// document.
pub proof fn lemma_round_trip(r: &Rebuild, d: int, c: int)
    requires
        r.wf(),
        r.phase_spec() == RebuildPhase::Ready,
        0 <= d < r.documents().len(),
        0 <= c < r.documents()[d].sentences@.len(),
    ensures
        0 <= r.point_of(d, c) < r.points().len(),
        r.points()[r.point_of(d, c)] == r.documents()[d].path@,
        find_in(r.documents(), r.points()[r.point_of(d, c)]) == Some(r.documents()[d].contents@),
{
    assert(r.stored(d, c));
    lemma_find_in_hit(r.documents(), d);
    let docs = r.documents();
    let j = choose|j: int|
        0 <= j <= d && #[trigger] docs[j].path@ == docs[d].path@ && find_in(
            docs,
            docs[d].path@,
        ) == Some(docs[j].contents@);
    if j != d {
        assert(docs[j].path@ != docs[d].path@);
    }
}

} // verus!

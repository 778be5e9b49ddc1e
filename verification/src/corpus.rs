//! The corpus walk: filtering, the corpus-wide heading index, link jobs and
//! their classification.
//!
//! The walk is split in two pure passes around the host's only I/O, the
//! existence check of resolved paths.  The first pass collects one job per
//! internal link of every analyzed document; the host then canonicalizes
//! each job's resolved path (`None` when no file exists there); the second
//! pass classifies every job against those answers and the corpus-wide
//! heading index, and keeps the failures, in document order then in-document
//! token order.

use vstd::prelude::*;

use crate::bytes::bytes_eq;
use crate::bytes::bytes_seq_view;
use crate::bytes::contains_bytes;
use crate::bytes::contains_vec;
use crate::bytes::copy_bytes;
use crate::bytes::has_substring;
use crate::links::join_path;
use crate::links::parent_of;
use crate::links::targets_view;
use crate::links::LinkTargetView;
use crate::links::ResolutionOutcome;
use crate::links::ResolutionOutcomeView;
use crate::links::extract_links;
use crate::links::hash_split;
use crate::links::is_external;
use crate::links::is_failure;
use crate::links::links_of;
use crate::links::resolve_target;
use crate::links::resolved_path;
use crate::links::split_anchor;
use crate::links::check_external;
use crate::slug::index;
use crate::slug::slugs_of;
use crate::tokens::LinkKind;
use crate::tokens::parse_tokens;
use crate::tokens::tokens_of;

verus! {

/// One document of the corpus.
pub struct Document {
    /// The document's path, relative to the source directory; a synthetic
    /// entry has none.
    pub path: Option<Vec<u8>>,
    /// The raw markup content.
    pub content: Vec<u8>,
    /// Whether the document is a draft.
    pub is_draft: bool,
}

/// The mathematical model of a document.
pub struct DocumentView {
    pub path: Option<Seq<u8>>,
    pub content: Seq<u8>,
    pub is_draft: bool,
}

impl View for Document {
    type V = DocumentView;

    open spec fn view(&self) -> DocumentView {
        DocumentView {
            path: match self.path {
                Some(p) => Some(p@),
                None => None,
            },
            content: self.content@,
            is_draft: self.is_draft,
        }
    }
}

/// The model of a list of documents.
pub open spec fn documents_view(s: Seq<Document>) -> Seq<DocumentView> {
    s.map_values(|d: Document| d@)
}

/// A corpus: its documents in document order, and the two path components
/// every internal link is resolved under.
pub struct Corpus {
    pub documents: Vec<Document>,
    pub source_root: Vec<u8>,
    pub src_dir: Vec<u8>,
}

/// The mathematical model of a corpus.
pub struct CorpusView {
    pub documents: Seq<DocumentView>,
    pub source_root: Seq<u8>,
    pub src_dir: Seq<u8>,
}

impl View for Corpus {
    type V = CorpusView;

    open spec fn view(&self) -> CorpusView {
        CorpusView {
            documents: documents_view(self.documents@),
            source_root: self.source_root@,
            src_dir: self.src_dir@,
        }
    }
}

/// The configuration of one run.
pub struct Config {
    /// Substring patterns of paths to skip.
    pub ignore_files: Vec<Vec<u8>>,
    /// Substring patterns of destinations to skip; declared but not yet
    /// consulted by the resolution logic.
    pub ignore_links: Vec<Vec<u8>>,
    /// Whether draft documents are analyzed.
    pub check_drafts: bool,
    /// Substring patterns of paths to analyze; when non-empty it acts as an
    /// allow-list and the ignore patterns are bypassed.
    pub include_files: Vec<Vec<u8>>,
}

/// The mathematical model of a configuration.
pub struct ConfigView {
    pub ignore_files: Seq<Seq<u8>>,
    pub ignore_links: Seq<Seq<u8>>,
    pub check_drafts: bool,
    pub include_files: Seq<Seq<u8>>,
}

impl View for Config {
    type V = ConfigView;

    open spec fn view(&self) -> ConfigView {
        ConfigView {
            ignore_files: bytes_seq_view(self.ignore_files@),
            ignore_links: bytes_seq_view(self.ignore_links@),
            check_drafts: self.check_drafts,
            include_files: bytes_seq_view(self.include_files@),
        }
    }
}

impl Default for Config {
    /// The defaults: no patterns, and drafts are checked.
    fn default() -> (c: Config)
        ensures
            c@.ignore_files.len() == 0,
            c@.ignore_links.len() == 0,
            c@.check_drafts == true,
            c@.include_files.len() == 0,
    {
        Config {
            ignore_files: Vec::new(),
            ignore_links: Vec::new(),
            check_drafts: true,
            include_files: Vec::new(),
        }
    }
}

/// The path a document is matched under: its own path, or the empty path
/// for a document without one.
pub open spec fn doc_match_path(d: DocumentView) -> Seq<u8> {
    match d.path {
        Some(p) => p,
        None => seq![],
    }
}

/// Whether a path holds one of the patterns as a substring.
pub open spec fn matches_any(path: Seq<u8>, patterns: Seq<Seq<u8>>) -> bool {
    exists|i: int| 0 <= i < patterns.len() && has_substring(path, patterns[i])
}

/// Decides whether a path holds one of the patterns.
pub fn matches_any_pattern(path: &[u8], patterns: &Vec<Vec<u8>>) -> (r: bool)
    ensures
        r == matches_any(path@, bytes_seq_view(patterns@)),
{
    let n = patterns.len();
    let mut i: usize = 0;
    while i < n
        invariant
            i <= n,
            n == patterns@.len(),
            forall|j: int| 0 <= j < i ==> !has_substring(path@, bytes_seq_view(patterns@)[j]),
        decreases n - i,
    {
        if contains_bytes(path, patterns[i].as_slice()) {
            assert(has_substring(path@, bytes_seq_view(patterns@)[i as int]));
            return true;
        }
        i = i + 1;
    }
    false
}

/// The filtering policy: a draft is skipped when drafts are not checked; a
/// non-empty include-list admits exactly the paths that hold one of its
/// patterns, and bypasses the ignore-list; otherwise a path that holds one
/// of the ignore patterns is skipped.
pub open spec fn analyzed(cfg: ConfigView, d: DocumentView) -> bool {
    &&& (cfg.check_drafts || !d.is_draft)
    &&& if cfg.include_files.len() > 0 {
        matches_any(doc_match_path(d), cfg.include_files)
    } else {
        !matches_any(doc_match_path(d), cfg.ignore_files)
    }
}

/// Decides whether a document is analyzed under a configuration.
pub fn is_analyzed(cfg: &Config, d: &Document) -> (r: bool)
    ensures
        r == analyzed(cfg@, d@),
{
    if !cfg.check_drafts && d.is_draft {
        return false;
    }
    let empty: Vec<u8> = Vec::new();
    let path: &Vec<u8> = match &d.path {
        Some(p) => p,
        None => &empty,
    };
    if cfg.include_files.len() > 0 {
        matches_any_pattern(path.as_slice(), &cfg.include_files)
    } else {
        !matches_any_pattern(path.as_slice(), &cfg.ignore_files)
    }
}

/// One resolution job: an internal link of an analyzed document, with its
/// resolved path and optional anchor.
pub struct LinkJob {
    /// Link or image.
    pub kind: LinkKind,
    /// The raw destination, exactly as written.
    pub dest: Vec<u8>,
    /// The fully joined path the destination points to.
    pub resolved: Vec<u8>,
    /// The anchor named after the first `#`, if any.
    pub anchor: Option<Vec<u8>>,
}

/// The mathematical model of a job.
pub struct LinkJobView {
    pub kind: LinkKind,
    pub dest: Seq<u8>,
    pub resolved: Seq<u8>,
    pub anchor: Option<Seq<u8>>,
}

impl View for LinkJob {
    type V = LinkJobView;

    open spec fn view(&self) -> LinkJobView {
        LinkJobView {
            kind: self.kind,
            dest: self.dest@,
            resolved: self.resolved@,
            anchor: match self.anchor {
                Some(a) => Some(a@),
                None => None,
            },
        }
    }
}

/// The model of a list of jobs.
pub open spec fn jobs_view(s: Seq<LinkJob>) -> Seq<LinkJobView> {
    s.map_values(|j: LinkJob| j@)
}

/// The job of one internal link target.
pub open spec fn job_of_target(
    root: Seq<u8>,
    src_dir: Seq<u8>,
    doc_path: Seq<u8>,
    t: LinkTargetView,
) -> LinkJobView {
    LinkJobView {
        kind: t.kind,
        dest: t.dest,
        resolved: resolved_path(root, src_dir, doc_path, hash_split(t.dest).0),
        anchor: hash_split(t.dest).1,
    }
}

/// The jobs of a list of link targets: one per internal target, in order;
/// an external destination produces none.
pub open spec fn jobs_of_links(
    root: Seq<u8>,
    src_dir: Seq<u8>,
    doc_path: Seq<u8>,
    links: Seq<LinkTargetView>,
) -> Seq<LinkJobView>
    decreases links.len(),
{
    if links.len() == 0 {
        seq![]
    } else {
        jobs_of_links(root, src_dir, doc_path, links.drop_last()) + (if is_external(
            links.last().dest,
        ) {
            seq![]
        } else {
            seq![job_of_target(root, src_dir, doc_path, links.last())]
        })
    }
}

/// The jobs of one document: none unless the document is analyzed and has a
/// path.
pub open spec fn doc_jobs(
    root: Seq<u8>,
    src_dir: Seq<u8>,
    cfg: ConfigView,
    d: DocumentView,
) -> Seq<LinkJobView> {
    match d.path {
        Some(p) => if analyzed(cfg, d) {
            jobs_of_links(root, src_dir, p, links_of(tokens_of(d.content)))
        } else {
            seq![]
        },
        None => seq![],
    }
}

/// The jobs of a list of documents, concatenated in document order.
pub open spec fn jobs_of_docs(
    root: Seq<u8>,
    src_dir: Seq<u8>,
    cfg: ConfigView,
    docs: Seq<DocumentView>,
) -> Seq<LinkJobView>
    decreases docs.len(),
{
    if docs.len() == 0 {
        seq![]
    } else {
        jobs_of_docs(root, src_dir, cfg, docs.drop_last()) + doc_jobs(
            root,
            src_dir,
            cfg,
            docs.last(),
        )
    }
}

/// The jobs of a whole corpus under a configuration.
pub open spec fn jobs_of(c: CorpusView, cfg: ConfigView) -> Seq<LinkJobView> {
    jobs_of_docs(c.source_root, c.src_dir, cfg, c.documents)
}

/// Collects the jobs of one document.
pub fn document_jobs(root: &[u8], src_dir: &[u8], cfg: &Config, d: &Document) -> (r: Vec<LinkJob>)
    ensures
        jobs_view(r@) == doc_jobs(root@, src_dir@, cfg@, d@),
{
    let mut out: Vec<LinkJob> = Vec::new();
    if !is_analyzed(cfg, d) {
        return out;
    }
    let doc_path: &Vec<u8> = match &d.path {
        Some(p) => p,
        None => {
            return out;
        },
    };
    let toks = parse_tokens(d.content.as_slice());
    let targets = extract_links(&toks);
    let ghost links = links_of(tokens_of(d.content@));
    let n = targets.len();
    let mut i: usize = 0;
    while i < n
        invariant
            i <= n,
            n == targets@.len(),
            targets_view(targets@) == links,
            jobs_view(out@) == jobs_of_links(root@, src_dir@, doc_path@, links.subrange(0, i as int)),
        decreases n - i,
    {
        proof {
            assert(links.subrange(0, i + 1).drop_last() =~= links.subrange(0, i as int));
            assert(links.subrange(0, i + 1).last() == links[i as int]);
        }
        let t = &targets[i];
        if !check_external(t.dest.as_slice()) {
            let (path_part, anchor) = split_anchor(t.dest.as_slice());
            let resolved = resolve_target(root, src_dir, doc_path.as_slice(), path_part.as_slice());
            let job = LinkJob { kind: t.kind, dest: copy_bytes(&t.dest), resolved, anchor };
            out.push(job);
        }
        proof {
            assert(jobs_view(out@) =~= jobs_of_links(
                root@,
                src_dir@,
                doc_path@,
                links.subrange(0, i + 1),
            ));
        }
        i = i + 1;
    }
    proof {
        assert(links.subrange(0, n as int) == links);
    }
    out
}

/// Collects the jobs of a whole corpus, in document order then in-document
/// token order.
pub fn collect_jobs(corpus: &Corpus, cfg: &Config) -> (r: Vec<LinkJob>)
    ensures
        jobs_view(r@) == jobs_of(corpus@, cfg@),
{
    let mut out: Vec<LinkJob> = Vec::new();
    let n = corpus.documents.len();
    let ghost docs = documents_view(corpus.documents@);
    let mut i: usize = 0;
    while i < n
        invariant
            i <= n,
            n == corpus.documents@.len(),
            docs == documents_view(corpus.documents@),
            jobs_view(out@) == jobs_of_docs(
                corpus.source_root@,
                corpus.src_dir@,
                cfg@,
                docs.subrange(0, i as int),
            ),
        decreases n - i,
    {
        proof {
            assert(docs.subrange(0, i + 1).drop_last() =~= docs.subrange(0, i as int));
            assert(docs.subrange(0, i + 1).last() == docs[i as int]);
        }
        let mut dj = document_jobs(
            corpus.source_root.as_slice(),
            corpus.src_dir.as_slice(),
            cfg,
            &corpus.documents[i],
        );
        out.append(&mut dj);
        proof {
            assert(jobs_view(out@) =~= jobs_of_docs(
                corpus.source_root@,
                corpus.src_dir@,
                cfg@,
                docs.subrange(0, i + 1),
            ));
        }
        i = i + 1;
    }
    proof {
        assert(docs.subrange(0, n as int) == docs);
    }
    out
}

/// One entry of the corpus-wide heading index: the canonical path of a
/// document and its ordered slugs.
pub struct IndexEntry {
    pub path: Vec<u8>,
    pub slugs: Vec<Vec<u8>>,
}

/// The mathematical model of an index entry.
pub struct IndexEntryView {
    pub path: Seq<u8>,
    pub slugs: Seq<Seq<u8>>,
}

impl View for IndexEntry {
    type V = IndexEntryView;

    open spec fn view(&self) -> IndexEntryView {
        IndexEntryView { path: self.path@, slugs: bytes_seq_view(self.slugs@) }
    }
}

/// The corpus-wide heading index: for every document that exists on disk,
/// its canonical path and its slugs.
pub struct HeadingIndex {
    pub entries: Vec<IndexEntry>,
}

/// The model of an index.
pub open spec fn entries_view(s: Seq<IndexEntry>) -> Seq<IndexEntryView> {
    s.map_values(|e: IndexEntry| e@)
}

impl View for HeadingIndex {
    type V = Seq<IndexEntryView>;

    open spec fn view(&self) -> Seq<IndexEntryView> {
        entries_view(self.entries@)
    }
}

/// The model of a list of optional canonical paths.
pub open spec fn canon_view(s: Seq<Option<Vec<u8>>>) -> Seq<Option<Seq<u8>>> {
    s.map_values(
        |o: Option<Vec<u8>>|
            match o {
                Some(p) => Some(p@),
                None => None,
            },
    )
}

/// The index entries of a list of documents and their canonical paths: one
/// entry per document that exists on disk, carrying its slugs.
pub open spec fn index_of(docs: Seq<DocumentView>, canon: Seq<Option<Seq<u8>>>) -> Seq<
    IndexEntryView,
>
    decreases docs.len(),
{
    if docs.len() == 0 || docs.len() != canon.len() {
        seq![]
    } else {
        index_of(docs.drop_last(), canon.drop_last()) + (match canon.last() {
            Some(p) => seq![
                IndexEntryView { path: p, slugs: slugs_of(tokens_of(docs.last().content)) },
            ],
            None => seq![],
        })
    }
}

/// Builds the corpus-wide heading index from the documents and the canonical
/// path of each (`None` for a document that does not exist on disk).
pub fn build_index(docs: &Vec<Document>, canonical: &Vec<Option<Vec<u8>>>) -> (r: HeadingIndex)
    requires
        docs@.len() == canonical@.len(),
    ensures
        r@ == index_of(documents_view(docs@), canon_view(canonical@)),
{
    let ghost dv = documents_view(docs@);
    let ghost cv = canon_view(canonical@);
    let mut entries: Vec<IndexEntry> = Vec::new();
    let n = docs.len();
    let mut i: usize = 0;
    while i < n
        invariant
            i <= n,
            n == docs@.len(),
            n == canonical@.len(),
            dv == documents_view(docs@),
            cv == canon_view(canonical@),
            entries_view(entries@) == index_of(dv.subrange(0, i as int), cv.subrange(0, i as int)),
        decreases n - i,
    {
        proof {
            assert(dv.subrange(0, i + 1).drop_last() =~= dv.subrange(0, i as int));
            assert(cv.subrange(0, i + 1).drop_last() =~= cv.subrange(0, i as int));
            assert(dv.subrange(0, i + 1).last() == dv[i as int]);
            assert(cv.subrange(0, i + 1).last() == cv[i as int]);
        }
        match &canonical[i] {
            Some(p) => {
                let slugs = index(docs[i].content.as_slice());
                let entry = IndexEntry { path: copy_bytes(p), slugs };
                entries.push(entry);
            },
            None => {},
        }
        proof {
            assert(entries_view(entries@) =~= index_of(
                dv.subrange(0, i + 1),
                cv.subrange(0, i + 1),
            ));
        }
        i = i + 1;
    }
    proof {
        assert(dv.subrange(0, n as int) == dv);
        assert(cv.subrange(0, n as int) == cv);
    }
    HeadingIndex { entries }
}

/// The slugs the index holds for a canonical path: those of its first entry
/// with that path.
pub open spec fn lookup_slugs(entries: Seq<IndexEntryView>, path: Seq<u8>) -> Option<Seq<Seq<u8>>>
    decreases entries.len(),
{
    if entries.len() == 0 {
        None
    } else if entries.first().path == path {
        Some(entries.first().slugs)
    } else {
        lookup_slugs(entries.drop_first(), path)
    }
}

/// Whether the index knows an anchor under a canonical path.
pub open spec fn anchor_known(
    entries: Seq<IndexEntryView>,
    path: Seq<u8>,
    anchor: Seq<u8>,
) -> bool {
    match lookup_slugs(entries, path) {
        Some(slugs) => slugs.contains(anchor),
        None => false,
    }
}

impl HeadingIndex {
    /// Decides whether the index knows an anchor under a canonical path.
    pub fn knows_anchor(&self, path: &Vec<u8>, anchor: &Vec<u8>) -> (r: bool)
        ensures
            r == anchor_known(self@, path@, anchor@),
    {
        let ghost es = entries_view(self.entries@);
        let n = self.entries.len();
        proof {
            assert(es.subrange(0, n as int) =~= es);
        }
        let mut i: usize = 0;
        while i < n
            invariant
                i <= n,
                n == self.entries@.len(),
                es == entries_view(self.entries@),
                lookup_slugs(es.subrange(i as int, n as int), path@) == lookup_slugs(es, path@),
            decreases n - i,
        {
            proof {
                assert(es.subrange(i as int, n as int).first() == es[i as int]);
                assert(es.subrange(i as int, n as int).drop_first() =~= es.subrange(
                    i + 1,
                    n as int,
                ));
            }
            let e = &self.entries[i];
            if bytes_eq(e.path.as_slice(), path.as_slice()) {
                return contains_vec(&e.slugs, anchor);
            }
            i = i + 1;
        }
        assert(es.subrange(n as int, n as int) =~= Seq::<IndexEntryView>::empty());
        false
    }
}

/// The outcome of one job, given the canonical form of its resolved path
/// (`None` when no file exists there) and the heading index: a missing file
/// is a missing chapter; with a file and no anchor the link is valid; with
/// an anchor the link is valid exactly when the index knows the anchor under
/// the file's canonical path.
pub open spec fn outcome_of(
    job: LinkJobView,
    canon: Option<Seq<u8>>,
    entries: Seq<IndexEntryView>,
) -> ResolutionOutcomeView {
    match canon {
        None => ResolutionOutcomeView::NonExistentChapter { path: job.resolved },
        Some(p) => match job.anchor {
            None => ResolutionOutcomeView::Valid,
            Some(a) => if anchor_known(entries, p, a) {
                ResolutionOutcomeView::Valid
            } else {
                ResolutionOutcomeView::NonExistentHeading { path: p, anchor: a }
            },
        },
    }
}

/// Classifies one job.
pub fn classify_job(job: &LinkJob, canon: &Option<Vec<u8>>, index: &HeadingIndex) -> (r:
    ResolutionOutcome)
    ensures
        r@ == outcome_of(
            job@,
            match canon {
                Some(p) => Some(p@),
                None => None,
            },
            index@,
        ),
{
    match canon {
        None => ResolutionOutcome::NonExistentChapter { path: copy_bytes(&job.resolved) },
        Some(p) => match &job.anchor {
            None => ResolutionOutcome::Valid,
            Some(a) => {
                if index.knows_anchor(p, a) {
                    ResolutionOutcome::Valid
                } else {
                    ResolutionOutcome::NonExistentHeading {
                        path: copy_bytes(p),
                        anchor: copy_bytes(a),
                    }
                }
            },
        },
    }
}

/// The model of a list of outcomes.
pub open spec fn outcomes_view(s: Seq<ResolutionOutcome>) -> Seq<ResolutionOutcomeView> {
    s.map_values(|o: ResolutionOutcome| o@)
}

/// The failures among the outcomes of a list of jobs, in job order.
pub open spec fn failures_of(
    jobs: Seq<LinkJobView>,
    canon: Seq<Option<Seq<u8>>>,
    entries: Seq<IndexEntryView>,
) -> Seq<ResolutionOutcomeView>
    decreases jobs.len(),
{
    if jobs.len() == 0 || jobs.len() != canon.len() {
        seq![]
    } else {
        failures_of(jobs.drop_last(), canon.drop_last(), entries) + (if is_failure(
            outcome_of(jobs.last(), canon.last(), entries),
        ) {
            seq![outcome_of(jobs.last(), canon.last(), entries)]
        } else {
            seq![]
        })
    }
}

/// Classifies every job against the canonical-path answers and the heading
/// index, and keeps the failures, in job order.
pub fn classify_jobs(
    jobs: &Vec<LinkJob>,
    canonical: &Vec<Option<Vec<u8>>>,
    index: &HeadingIndex,
) -> (r: Vec<ResolutionOutcome>)
    requires
        jobs@.len() == canonical@.len(),
    ensures
        outcomes_view(r@) == failures_of(jobs_view(jobs@), canon_view(canonical@), index@),
        forall|i: int| 0 <= i < r@.len() ==> is_failure(#[trigger] outcomes_view(r@)[i]),
{
    let ghost jv = jobs_view(jobs@);
    let ghost cv = canon_view(canonical@);
    let mut out: Vec<ResolutionOutcome> = Vec::new();
    let n = jobs.len();
    let mut i: usize = 0;
    while i < n
        invariant
            i <= n,
            n == jobs@.len(),
            n == canonical@.len(),
            jv == jobs_view(jobs@),
            cv == canon_view(canonical@),
            outcomes_view(out@) == failures_of(
                jv.subrange(0, i as int),
                cv.subrange(0, i as int),
                index@,
            ),
            forall|k: int| 0 <= k < out@.len() ==> is_failure(#[trigger] outcomes_view(out@)[k]),
        decreases n - i,
    {
        proof {
            assert(jv.subrange(0, i + 1).drop_last() =~= jv.subrange(0, i as int));
            assert(cv.subrange(0, i + 1).drop_last() =~= cv.subrange(0, i as int));
            assert(jv.subrange(0, i + 1).last() == jv[i as int]);
            assert(cv.subrange(0, i + 1).last() == cv[i as int]);
        }
        let o = classify_job(&jobs[i], &canonical[i], index);
        let failing = match &o {
            ResolutionOutcome::Valid => false,
            ResolutionOutcome::ExternalSkipped => false,
            _ => true,
        };
        if failing {
            out.push(o);
        }
        proof {
            assert(outcomes_view(out@) =~= failures_of(
                jv.subrange(0, i + 1),
                cv.subrange(0, i + 1),
                index@,
            ));
        }
        i = i + 1;
    }
    proof {
        assert(jv.subrange(0, n as int) == jv);
        assert(cv.subrange(0, n as int) == cv);
    }
    out
}

/// External short-circuit: a destination that starts with `http` never
/// produces a resolution job for its list of link targets, so it is never
/// resolved against the filesystem and never appears in the failure output.
pub proof fn lemma_external_short_circuit(
    root: Seq<u8>,
    src_dir: Seq<u8>,
    doc_path: Seq<u8>,
    links: Seq<LinkTargetView>,
    i: int,
)
    requires
        0 <= i < jobs_of_links(root, src_dir, doc_path, links).len(),
    ensures
        !is_external(jobs_of_links(root, src_dir, doc_path, links)[i].dest),
    decreases links.len(),
{
    if links.len() > 0 {
        let pre = jobs_of_links(root, src_dir, doc_path, links.drop_last());
        if i < pre.len() {
            lemma_external_short_circuit(root, src_dir, doc_path, links.drop_last(), i);
        }
    }
}

/// External short-circuit over a whole corpus: no collected job carries an
/// external destination.
pub proof fn lemma_corpus_jobs_internal(c: CorpusView, cfg: ConfigView, i: int)
    requires
        0 <= i < jobs_of(c, cfg).len(),
    ensures
        !is_external(jobs_of(c, cfg)[i].dest),
{
    lemma_docs_jobs_internal(c.source_root, c.src_dir, cfg, c.documents, i);
}

proof fn lemma_docs_jobs_internal(
    root: Seq<u8>,
    src_dir: Seq<u8>,
    cfg: ConfigView,
    docs: Seq<DocumentView>,
    i: int,
)
    requires
        0 <= i < jobs_of_docs(root, src_dir, cfg, docs).len(),
    ensures
        !is_external(jobs_of_docs(root, src_dir, cfg, docs)[i].dest),
    decreases docs.len(),
{
    if docs.len() > 0 {
        let pre = jobs_of_docs(root, src_dir, cfg, docs.drop_last());
        if i < pre.len() {
            lemma_docs_jobs_internal(root, src_dir, cfg, docs.drop_last(), i);
        } else {
            let d = docs.last();
            match d.path {
                Some(p) => {
                    if analyzed(cfg, d) {
                        lemma_external_short_circuit(
                            root,
                            src_dir,
                            p,
                            links_of(tokens_of(d.content)),
                            i - pre.len(),
                        );
                    }
                },
                None => {},
            }
        }
    }
}

/// Path resolution: an internal link target's job resolves against the
/// source root, the source directory and the linking document's parent
/// directory in that order, and when no file exists at the resolved path the
/// failure is a missing chapter carrying the fully joined path.
pub proof fn lemma_path_resolution(
    root: Seq<u8>,
    src_dir: Seq<u8>,
    doc_path: Seq<u8>,
    t: LinkTargetView,
    entries: Seq<IndexEntryView>,
)
    ensures
        job_of_target(root, src_dir, doc_path, t).resolved == join_path(
            join_path(join_path(root, src_dir), parent_of(doc_path)),
            hash_split(t.dest).0,
        ),
        outcome_of(job_of_target(root, src_dir, doc_path, t), None, entries)
            == (ResolutionOutcomeView::NonExistentChapter {
            path: resolved_path(root, src_dir, doc_path, hash_split(t.dest).0),
        }),
{
}

/// Anchor resolution: a job is valid exactly when a file exists at its
/// resolved path and, if it names an anchor, the heading index knows that
/// anchor under the file's canonical path; with a file but an unknown anchor
/// the failure names the canonical path and the missing anchor.
pub proof fn lemma_anchor_resolution(
    job: LinkJobView,
    canon: Option<Seq<u8>>,
    entries: Seq<IndexEntryView>,
)
    ensures
        (outcome_of(job, canon, entries) is Valid) <==> (match canon {
            Some(p) => match job.anchor {
                Some(a) => anchor_known(entries, p, a),
                None => true,
            },
            None => false,
        }),
        match (canon, job.anchor) {
            (Some(p), Some(a)) => !anchor_known(entries, p, a) ==> outcome_of(job, canon, entries)
                == (ResolutionOutcomeView::NonExistentHeading { path: p, anchor: a }),
            _ => true,
        },
{
}

/// Filter precedence: once the include-list is non-empty, a document whose
/// path holds one of its patterns is analyzed whatever the ignore-list says
/// (drafts permitting).
pub proof fn lemma_filter_precedence(cfg: ConfigView, d: DocumentView)
    requires
        cfg.include_files.len() > 0,
        matches_any(doc_match_path(d), cfg.include_files),
        cfg.check_drafts || !d.is_draft,
    ensures
        analyzed(cfg, d),
{
}

/// Aggregate success: when every job's outcome is valid, the failure list is
/// empty.
pub proof fn lemma_aggregate_success(
    jobs: Seq<LinkJobView>,
    canon: Seq<Option<Seq<u8>>>,
    entries: Seq<IndexEntryView>,
)
    requires
        jobs.len() == canon.len(),
        forall|i: int|
            0 <= i < jobs.len() ==> outcome_of(jobs[i], canon[i], entries)
                == ResolutionOutcomeView::Valid,
    ensures
        failures_of(jobs, canon, entries).len() == 0,
    decreases jobs.len(),
{
    if jobs.len() > 0 {
        assert(forall|i: int|
            0 <= i < jobs.len() - 1 ==> outcome_of(jobs.drop_last()[i], canon.drop_last()[i], entries)
                == ResolutionOutcomeView::Valid);
        lemma_aggregate_success(jobs.drop_last(), canon.drop_last(), entries);
        assert(outcome_of(jobs.last(), canon.last(), entries) == ResolutionOutcomeView::Valid);
    }
}

/// Aggregates the failures: an empty list is success, otherwise the whole
/// list is the error.
pub fn aggregate(failures: Vec<ResolutionOutcome>) -> (r: Result<(), Vec<ResolutionOutcome>>)
    ensures
        match r {
            Ok(()) => failures@.len() == 0,
            Err(f) => f@ == failures@ && failures@.len() > 0,
        },
{
    if failures.len() == 0 {
        Ok(())
    } else {
        Err(failures)
    }
}

} // verus!

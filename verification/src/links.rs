//! Link targets and path resolution.
//!
//! A link or image token carries a raw destination.  A destination that
//! starts with `http` is external and never resolved.  An internal one is
//! split at its first `#` into a path component and an optional anchor, and
//! the path component is resolved by joining, in order: the corpus's source
//! root, its source directory, the linking document's parent directory, and
//! the path component itself.

use vstd::prelude::*;

use crate::bytes::append_bytes;
use crate::bytes::copy_bytes;
use crate::bytes::has_prefix;
use crate::bytes::starts_with;
use crate::bytes::sub_bytes;
use crate::tokens::LinkKind;
use crate::tokens::Token;
use crate::tokens::TokenView;
use crate::tokens::tokens_view;

verus! {

/// A link or image target extracted from a token stream.
pub struct LinkTarget {
    /// Link or image.
    pub kind: LinkKind,
    /// The raw destination, exactly as written.
    pub dest: Vec<u8>,
}

/// The mathematical model of a link target.
pub struct LinkTargetView {
    pub kind: LinkKind,
    pub dest: Seq<u8>,
}

impl View for LinkTarget {
    type V = LinkTargetView;

    open spec fn view(&self) -> LinkTargetView {
        LinkTargetView { kind: self.kind, dest: self.dest@ }
    }
}

/// The model of a list of link targets.
pub open spec fn targets_view(s: Seq<LinkTarget>) -> Seq<LinkTargetView> {
    s.map_values(|t: LinkTarget| t@)
}

/// The link and image targets of a token stream, in document order.
pub open spec fn links_of(tokens: Seq<TokenView>) -> Seq<LinkTargetView>
    decreases tokens.len(),
{
    if tokens.len() == 0 {
        seq![]
    } else {
        links_of(tokens.drop_last()) + (match tokens.last() {
            TokenView::LinkStart(k, d) => seq![LinkTargetView { kind: k, dest: d }],
            _ => seq![],
        })
    }
}

/// Extracts every link and image target of a token stream.
pub fn extract_links(tokens: &Vec<Token>) -> (r: Vec<LinkTarget>)
    ensures
        targets_view(r@) == links_of(tokens_view(tokens@)),
{
    let ghost tv = tokens_view(tokens@);
    let mut out: Vec<LinkTarget> = Vec::new();
    let n = tokens.len();
    let mut i: usize = 0;
    while i < n
        invariant
            i <= n,
            n == tokens@.len(),
            tv == tokens_view(tokens@),
            targets_view(out@) == links_of(tv.subrange(0, i as int)),
        decreases n - i,
    {
        proof {
            assert(tv.subrange(0, i + 1).drop_last() =~= tv.subrange(0, i as int));
            assert(tv.subrange(0, i + 1).last() == tv[i as int]);
        }
        match &tokens[i] {
            Token::LinkStart(k, d) => {
                let target = LinkTarget { kind: *k, dest: copy_bytes(d) };
                out.push(target);
                proof {
                    assert(targets_view(out@) =~= links_of(tv.subrange(0, i + 1)));
                }
            },
            _ => {},
        }
        i = i + 1;
    }
    proof {
        assert(tv.subrange(0, n as int) == tv);
    }
    out
}

/// The external scheme prefix: a destination that starts with `http` (which
/// also covers `https`) is never resolved against the filesystem.
pub open spec fn http_prefix() -> Seq<u8> {
    seq![104u8, 116u8, 116u8, 112u8]
}

/// Whether a destination is an external URL.
pub open spec fn is_external(d: Seq<u8>) -> bool {
    has_prefix(d, http_prefix())
}

/// Decides whether a destination is external.
pub fn check_external(d: &[u8]) -> (r: bool)
    ensures
        r == is_external(d@),
{
    let mut p: Vec<u8> = Vec::new();
    p.push(104);
    p.push(116);
    p.push(116);
    p.push(112);
    assert(p@ =~= http_prefix());
    starts_with(d, p.as_slice())
}

/// Splitting a destination at its first `#`: everything before it is the
/// path component, everything after it the anchor; without a `#` the whole
/// destination is the path component and there is no anchor.
pub open spec fn hash_split(d: Seq<u8>) -> (Seq<u8>, Option<Seq<u8>>)
    decreases d.len(),
{
    if d.len() == 0 {
        (seq![], None)
    } else if d[0] == 35 {
        (seq![], Some(d.drop_first()))
    } else {
        let r = hash_split(d.drop_first());
        (seq![d[0]] + r.0, r.1)
    }
}

proof fn lemma_hash_split_none(d: Seq<u8>)
    requires
        forall|j: int| 0 <= j < d.len() ==> d[j] != 35,
    ensures
        hash_split(d) == (d, None::<Seq<u8>>),
    decreases d.len(),
{
    if d.len() > 0 {
        lemma_hash_split_none(d.drop_first());
        assert(seq![d[0]] + d.drop_first() =~= d);
    }
}

proof fn lemma_hash_split_at(d: Seq<u8>, i: int)
    requires
        0 <= i < d.len(),
        d[i] == 35,
        forall|j: int| 0 <= j < i ==> d[j] != 35,
    ensures
        hash_split(d).0 == d.subrange(0, i),
        hash_split(d).1 == Some(d.subrange(i + 1, d.len() as int)),
    decreases i,
{
    if i == 0 {
        assert(d.drop_first() =~= d.subrange(1, d.len() as int));
        assert(hash_split(d).0 =~= d.subrange(0, 0));
    } else {
        let d2 = d.drop_first();
        lemma_hash_split_at(d2, i - 1);
        assert(seq![d[0]] + d2.subrange(0, i - 1) =~= d.subrange(0, i));
        assert(d2.subrange(i, d2.len() as int) =~= d.subrange(i + 1, d.len() as int));
    }
}

/// Splits a destination at its first `#` into the path component and the
/// optional anchor.
pub fn split_anchor(d: &[u8]) -> (r: (Vec<u8>, Option<Vec<u8>>))
    ensures
        r.0@ == hash_split(d@).0,
        match r.1 {
            Some(a) => hash_split(d@).1 == Some(a@),
            None => hash_split(d@).1 is None,
        },
{
    let n = d.len();
    let mut i: usize = 0;
    while i < n
        invariant
            i <= n,
            n == d@.len(),
            forall|j: int| 0 <= j < i ==> d@[j] != 35,
        decreases n - i,
    {
        if d[i] == 35 {
            proof {
                lemma_hash_split_at(d@, i as int);
            }
            let path = sub_bytes(d, 0, i);
            let anchor = sub_bytes(d, i + 1, n);
            return (path, Some(anchor));
        }
        i = i + 1;
    }
    proof {
        lemma_hash_split_none(d@);
    }
    (sub_bytes(d, 0, n), None)
}

/// The parent directory of a path: everything before its last `/`, and the
/// empty path when it has no `/`.
pub open spec fn parent_of(p: Seq<u8>) -> Seq<u8>
    decreases p.len(),
{
    if p.len() == 0 {
        seq![]
    } else if p.last() == 47 {
        p.drop_last()
    } else {
        parent_of(p.drop_last())
    }
}

proof fn lemma_parent_none(p: Seq<u8>)
    requires
        forall|j: int| 0 <= j < p.len() ==> p[j] != 47,
    ensures
        parent_of(p) == Seq::<u8>::empty(),
    decreases p.len(),
{
    if p.len() > 0 {
        lemma_parent_none(p.drop_last());
    }
}

proof fn lemma_parent_at(p: Seq<u8>, i: int)
    requires
        0 <= i < p.len(),
        p[i] == 47,
        forall|j: int| i < j < p.len() ==> p[j] != 47,
    ensures
        parent_of(p) == p.subrange(0, i),
    decreases p.len(),
{
    if i == p.len() - 1 {
        assert(p.drop_last() =~= p.subrange(0, i));
    } else {
        lemma_parent_at(p.drop_last(), i);
        assert(p.drop_last().subrange(0, i) =~= p.subrange(0, i));
    }
}

/// Computes the parent directory of a path.
pub fn parent_dir(p: &[u8]) -> (r: Vec<u8>)
    ensures
        r@ == parent_of(p@),
{
    let n = p.len();
    let mut i: usize = n;
    while i > 0
        invariant
            i <= n,
            n == p@.len(),
            forall|j: int| i <= j < n ==> p@[j] != 47,
        decreases i,
    {
        if p[i - 1] == 47 {
            proof {
                lemma_parent_at(p@, i - 1);
            }
            return sub_bytes(p, 0, i - 1);
        }
        i = i - 1;
    }
    proof {
        lemma_parent_none(p@);
    }
    Vec::new()
}

/// Joining two path components: an empty side disappears, otherwise the two
/// are joined with a single `/`.
pub open spec fn join_path(a: Seq<u8>, b: Seq<u8>) -> Seq<u8> {
    if a.len() == 0 {
        b
    } else if b.len() == 0 {
        a
    } else {
        a + seq![47u8] + b
    }
}

/// Joins two path components.
pub fn join(a: &[u8], b: &[u8]) -> (r: Vec<u8>)
    ensures
        r@ == join_path(a@, b@),
{
    if a.len() == 0 {
        return sub_bytes(b, 0, b.len());
    }
    if b.len() == 0 {
        return sub_bytes(a, 0, a.len());
    }
    let mut r = sub_bytes(a, 0, a.len());
    r.push(47);
    append_bytes(&mut r, b);
    assert(r@ =~= join_path(a@, b@));
    r
}

/// Where an internal path component points from a given document: the source
/// root, the source directory, the document's parent directory and the path
/// component, joined in that order.
pub open spec fn resolved_path(
    root: Seq<u8>,
    src_dir: Seq<u8>,
    doc_path: Seq<u8>,
    path_part: Seq<u8>,
) -> Seq<u8> {
    join_path(join_path(join_path(root, src_dir), parent_of(doc_path)), path_part)
}

/// Resolves an internal path component against the corpus's path space.
pub fn resolve_target(root: &[u8], src_dir: &[u8], doc_path: &[u8], path_part: &[u8]) -> (r: Vec<
    u8,
>)
    ensures
        r@ == resolved_path(root@, src_dir@, doc_path@, path_part@),
{
    let base = join(root, src_dir);
    let parent = parent_dir(doc_path);
    let dir = join(base.as_slice(), parent.as_slice());
    join(dir.as_slice(), path_part)
}

/// How one resolution attempt ended.
pub enum ResolutionOutcome {
    /// The target exists, and so does the anchor if one was named.
    Valid,
    /// The destination is an external URL and was not checked.
    ExternalSkipped,
    /// No file exists at the resolved path.
    NonExistentChapter { path: Vec<u8> },
    /// The target exists but has no heading with the named anchor.
    NonExistentHeading { path: Vec<u8>, anchor: Vec<u8> },
    /// The markup holds a reference that resolves to no destination at all.
    MalformedLink { reference: Vec<u8> },
}

/// The mathematical model of a resolution outcome.
pub enum ResolutionOutcomeView {
    Valid,
    ExternalSkipped,
    NonExistentChapter { path: Seq<u8> },
    NonExistentHeading { path: Seq<u8>, anchor: Seq<u8> },
    MalformedLink { reference: Seq<u8> },
}

impl View for ResolutionOutcome {
    type V = ResolutionOutcomeView;

    open spec fn view(&self) -> ResolutionOutcomeView {
        match self {
            ResolutionOutcome::Valid => ResolutionOutcomeView::Valid,
            ResolutionOutcome::ExternalSkipped => ResolutionOutcomeView::ExternalSkipped,
            ResolutionOutcome::NonExistentChapter { path } => {
                ResolutionOutcomeView::NonExistentChapter { path: path@ }
            },
            ResolutionOutcome::NonExistentHeading { path, anchor } => {
                ResolutionOutcomeView::NonExistentHeading { path: path@, anchor: anchor@ }
            },
            ResolutionOutcome::MalformedLink { reference } => {
                ResolutionOutcomeView::MalformedLink { reference: reference@ }
            },
        }
    }
}

/// Whether an outcome is reported as a failure: external links and valid
/// links are not, everything else is.
pub open spec fn is_failure(o: ResolutionOutcomeView) -> bool {
    match o {
        ResolutionOutcomeView::Valid => false,
        ResolutionOutcomeView::ExternalSkipped => false,
        _ => true,
    }
}

/// The bytes of `"Non existent chapter: "`.
pub open spec fn chapter_note() -> Seq<u8> {
    seq![78u8, 111u8, 110u8, 32u8, 101u8, 120u8, 105u8, 115u8, 116u8, 101u8, 110u8, 116u8, 32u8, 99u8, 104u8, 97u8, 112u8, 116u8, 101u8, 114u8, 58u8, 32u8]
}

/// The bytes of `"Non existent heading: "`.
pub open spec fn heading_note() -> Seq<u8> {
    seq![78u8, 111u8, 110u8, 32u8, 101u8, 120u8, 105u8, 115u8, 116u8, 101u8, 110u8, 116u8, 32u8, 104u8, 101u8, 97u8, 100u8, 105u8, 110u8, 103u8, 58u8, 32u8]
}

/// The bytes of `"Malformed link: "`.
pub open spec fn malformed_note() -> Seq<u8> {
    seq![77u8, 97u8, 108u8, 102u8, 111u8, 114u8, 109u8, 101u8, 100u8, 32u8, 108u8, 105u8, 110u8, 107u8, 58u8, 32u8]
}

fn push_chapter_note(v: &mut Vec<u8>)
    ensures
        final(v)@ == old(v)@ + chapter_note(),
{
    v.push(78);
    v.push(111);
    v.push(110);
    v.push(32);
    v.push(101);
    v.push(120);
    v.push(105);
    v.push(115);
    v.push(116);
    v.push(101);
    v.push(110);
    v.push(116);
    v.push(32);
    v.push(99);
    v.push(104);
    v.push(97);
    v.push(112);
    v.push(116);
    v.push(101);
    v.push(114);
    v.push(58);
    v.push(32);
    assert(v@ =~= old(v)@ + chapter_note());
}

fn push_heading_note(v: &mut Vec<u8>)
    ensures
        final(v)@ == old(v)@ + heading_note(),
{
    v.push(78);
    v.push(111);
    v.push(110);
    v.push(32);
    v.push(101);
    v.push(120);
    v.push(105);
    v.push(115);
    v.push(116);
    v.push(101);
    v.push(110);
    v.push(116);
    v.push(32);
    v.push(104);
    v.push(101);
    v.push(97);
    v.push(100);
    v.push(105);
    v.push(110);
    v.push(103);
    v.push(58);
    v.push(32);
    assert(v@ =~= old(v)@ + heading_note());
}

fn push_malformed_note(v: &mut Vec<u8>)
    ensures
        final(v)@ == old(v)@ + malformed_note(),
{
    v.push(77);
    v.push(97);
    v.push(108);
    v.push(102);
    v.push(111);
    v.push(114);
    v.push(109);
    v.push(101);
    v.push(100);
    v.push(32);
    v.push(108);
    v.push(105);
    v.push(110);
    v.push(107);
    v.push(58);
    v.push(32);
    assert(v@ =~= old(v)@ + malformed_note());
}

/// The one human-readable line of a reported outcome: the kind, the resolved
/// path, and for a heading failure the missing anchor after a `#`.  An
/// outcome that is not a failure has no line.
pub open spec fn describe_outcome(o: ResolutionOutcomeView) -> Seq<u8> {
    match o {
        ResolutionOutcomeView::Valid => seq![],
        ResolutionOutcomeView::ExternalSkipped => seq![],
        ResolutionOutcomeView::NonExistentChapter { path } => chapter_note() + path,
        ResolutionOutcomeView::NonExistentHeading { path, anchor } => {
            heading_note() + path + seq![35u8] + anchor
        },
        ResolutionOutcomeView::MalformedLink { reference } => malformed_note() + reference,
    }
}

impl ResolutionOutcome {
    /// Renders the outcome's report line.
    pub fn describe(&self) -> (r: Vec<u8>)
        ensures
            r@ == describe_outcome(self@),
    {
        let mut v: Vec<u8> = Vec::new();
        match self {
            ResolutionOutcome::Valid => {},
            ResolutionOutcome::ExternalSkipped => {},
            ResolutionOutcome::NonExistentChapter { path } => {
                push_chapter_note(&mut v);
                append_bytes(&mut v, path.as_slice());
            },
            ResolutionOutcome::NonExistentHeading { path, anchor } => {
                push_heading_note(&mut v);
                append_bytes(&mut v, path.as_slice());
                v.push(35);
                append_bytes(&mut v, anchor.as_slice());
                assert(v@ =~= describe_outcome(self@));
            },
            ResolutionOutcome::MalformedLink { reference } => {
                push_malformed_note(&mut v);
                append_bytes(&mut v, reference.as_slice());
            },
        }
        v
    }
}

} // verus!

use mdbook_unlink::corpus::aggregate;
use mdbook_unlink::corpus::build_index;
use mdbook_unlink::corpus::classify_jobs;
use mdbook_unlink::corpus::collect_jobs;
use mdbook_unlink::corpus::Config;
use mdbook_unlink::corpus::Corpus;
use mdbook_unlink::corpus::Document;
use mdbook_unlink::corpus::LinkJob;
use mdbook_unlink::links::ResolutionOutcome;
use mdbook_unlink::tokens::LinkKind;

fn doc(path: &str, content: &str) -> Document {
    Document {
        path: Some(path.as_bytes().to_vec()),
        content: content.as_bytes().to_vec(),
        is_draft: false,
    }
}

fn corpus(docs: Vec<Document>) -> Corpus {
    Corpus {
        documents: docs,
        source_root: b"root".to_vec(),
        src_dir: b"src".to_vec(),
    }
}

/// Answers the canonicalization of each job's resolved path as a filesystem
/// with exactly the given files would: the path itself when it exists there,
/// and nothing otherwise.
fn canon_answers(jobs: &[LinkJob], existing: &[&str]) -> Vec<Option<Vec<u8>>> {
    jobs.iter()
        .map(|j| {
            if existing.iter().any(|e| e.as_bytes() == j.resolved.as_slice()) {
                Some(j.resolved.clone())
            } else {
                None
            }
        })
        .collect()
}

#[test]
fn external_links_produce_no_jobs() {
    let c = corpus(vec![doc(
        "a.md",
        "see [x](http://example.com/x.md) and [y](https://example.com/y.md#frag)\n",
    )]);
    let jobs = collect_jobs(&c, &Config::default());
    assert!(jobs.is_empty());
}

#[test]
fn internal_link_resolves_against_parent_directory() {
    let c = corpus(vec![doc("a/b.md", "see [other](other.md)\n")]);
    let jobs = collect_jobs(&c, &Config::default());
    assert_eq!(jobs.len(), 1);
    assert_eq!(jobs[0].resolved, b"root/src/a/other.md".to_vec());
    assert_eq!(jobs[0].anchor, None);
    assert_eq!(jobs[0].kind, LinkKind::Link);
}

#[test]
fn missing_chapter_carries_the_joined_path() {
    let c = corpus(vec![doc("a/b.md", "see [other](other.md)\n")]);
    let jobs = collect_jobs(&c, &Config::default());
    let canon = canon_answers(&jobs, &[]);
    let index = build_index(&c.documents, &vec![Some(b"root/src/a/b.md".to_vec())]);
    let failures = classify_jobs(&jobs, &canon, &index);
    assert_eq!(failures.len(), 1);
    match &failures[0] {
        ResolutionOutcome::NonExistentChapter { path } => {
            assert_eq!(path, &b"root/src/a/other.md".to_vec());
        }
        other => panic!("wrong outcome: {:?}", other.describe()),
    }
    assert_eq!(
        failures[0].describe(),
        b"Non existent chapter: root/src/a/other.md".to_vec()
    );
}

#[test]
fn anchor_after_first_hash_is_kept_whole() {
    let c = corpus(vec![doc("b.md", "see [x](a.md#one#two)\n")]);
    let jobs = collect_jobs(&c, &Config::default());
    assert_eq!(jobs.len(), 1);
    assert_eq!(jobs[0].resolved, b"root/src/a.md".to_vec());
    assert_eq!(jobs[0].anchor, Some(b"one#two".to_vec()));
}

#[test]
fn images_are_checked_like_links() {
    let c = corpus(vec![doc("a.md", "![alt](img.png)\n")]);
    let jobs = collect_jobs(&c, &Config::default());
    assert_eq!(jobs.len(), 1);
    assert_eq!(jobs[0].kind, LinkKind::Image);
    assert_eq!(jobs[0].resolved, b"root/src/img.png".to_vec());
}

#[test]
fn end_to_end_valid_corpus_is_success() {
    let intro = doc(
        "intro.md",
        "# Getting Started\n\nsee [setup](setup.md#install)\n",
    );
    let setup = doc("setup.md", "## Install\n");
    let c = corpus(vec![intro, setup]);
    let cfg = Config::default();

    let jobs = collect_jobs(&c, &cfg);
    assert_eq!(jobs.len(), 1);
    assert_eq!(jobs[0].resolved, b"root/src/setup.md".to_vec());
    assert_eq!(jobs[0].anchor, Some(b"install".to_vec()));

    let index = build_index(
        &c.documents,
        &vec![
            Some(b"root/src/intro.md".to_vec()),
            Some(b"root/src/setup.md".to_vec()),
        ],
    );
    let canon = canon_answers(&jobs, &["root/src/intro.md", "root/src/setup.md"]);
    let failures = classify_jobs(&jobs, &canon, &index);
    assert!(failures.is_empty());
    assert!(aggregate(failures).is_ok());
}

#[test]
fn end_to_end_missing_anchor_is_a_heading_failure() {
    let intro = doc(
        "intro.md",
        "# Getting Started\n\nsee [setup](setup.md#installation)\n",
    );
    let setup = doc("setup.md", "## Install\n");
    let c = corpus(vec![intro, setup]);
    let cfg = Config::default();

    let jobs = collect_jobs(&c, &cfg);
    let index = build_index(
        &c.documents,
        &vec![
            Some(b"root/src/intro.md".to_vec()),
            Some(b"root/src/setup.md".to_vec()),
        ],
    );
    let canon = canon_answers(&jobs, &["root/src/intro.md", "root/src/setup.md"]);
    let failures = classify_jobs(&jobs, &canon, &index);
    assert_eq!(failures.len(), 1);
    match &failures[0] {
        ResolutionOutcome::NonExistentHeading { path, anchor } => {
            assert_eq!(path, &b"root/src/setup.md".to_vec());
            assert_eq!(anchor, &b"installation".to_vec());
        }
        other => panic!("wrong outcome: {:?}", other.describe()),
    }
    assert_eq!(
        failures[0].describe(),
        b"Non existent heading: root/src/setup.md#installation".to_vec()
    );
    let agg = aggregate(failures);
    assert!(agg.is_err());
    assert_eq!(agg.err().unwrap().len(), 1);
}

#[test]
fn valid_anchorless_link_to_existing_file() {
    let c = corpus(vec![
        doc("a.md", "see [b](b.md)\n"),
        doc("b.md", "# B\n"),
    ]);
    let jobs = collect_jobs(&c, &Config::default());
    let index = build_index(
        &c.documents,
        &vec![
            Some(b"root/src/a.md".to_vec()),
            Some(b"root/src/b.md".to_vec()),
        ],
    );
    let canon = canon_answers(&jobs, &["root/src/a.md", "root/src/b.md"]);
    let failures = classify_jobs(&jobs, &canon, &index);
    assert!(failures.is_empty());
}

#[test]
fn documents_without_a_path_produce_no_jobs() {
    let separator = Document {
        path: None,
        content: b"see [gone](gone.md)\n".to_vec(),
        is_draft: false,
    };
    let c = corpus(vec![separator]);
    let jobs = collect_jobs(&c, &Config::default());
    assert!(jobs.is_empty());
}

#[test]
fn malformed_link_message() {
    let o = ResolutionOutcome::MalformedLink {
        reference: b"[broken]".to_vec(),
    };
    assert_eq!(o.describe(), b"Malformed link: [broken]".to_vec());
}

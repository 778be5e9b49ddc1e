use mdbook_unlink::corpus::collect_jobs;
use mdbook_unlink::corpus::Config;
use mdbook_unlink::corpus::Corpus;
use mdbook_unlink::corpus::Document;

fn doc(path: &str) -> Document {
    Document {
        path: Some(path.as_bytes().to_vec()),
        content: b"see [gone](gone.md)\n".to_vec(),
        is_draft: false,
    }
}

fn corpus(docs: Vec<Document>) -> Corpus {
    Corpus {
        documents: docs,
        source_root: b"root".to_vec(),
        src_dir: b"src".to_vec(),
    }
}

fn patterns(p: &[&str]) -> Vec<Vec<u8>> {
    p.iter().map(|s| s.as_bytes().to_vec()).collect()
}

#[test]
fn defaults_check_drafts_and_filter_nothing() {
    let cfg = Config::default();
    assert!(cfg.check_drafts);
    assert!(cfg.ignore_files.is_empty());
    assert!(cfg.ignore_links.is_empty());
    assert!(cfg.include_files.is_empty());
}

#[test]
fn ignored_paths_are_skipped() {
    let c = corpus(vec![doc("a/draft.md"), doc("a/b.md")]);
    let mut cfg = Config::default();
    cfg.ignore_files = patterns(&["draft"]);
    let jobs = collect_jobs(&c, &cfg);
    // Only a/b.md is analyzed.
    assert_eq!(jobs.len(), 1);
    assert_eq!(jobs[0].resolved, b"root/src/a/gone.md".to_vec());
}

#[test]
fn include_list_takes_precedence_over_ignore_list() {
    let c = corpus(vec![doc("guide/draft.md")]);
    let mut cfg = Config::default();
    cfg.include_files = patterns(&["guide"]);
    cfg.ignore_files = patterns(&["draft"]);
    let jobs = collect_jobs(&c, &cfg);
    // The path holds an include pattern, so the ignore list is bypassed and
    // the document is analyzed.
    assert_eq!(jobs.len(), 1);
}

#[test]
fn nonempty_include_list_skips_everything_else() {
    let c = corpus(vec![doc("guide/a.md"), doc("misc/b.md")]);
    let mut cfg = Config::default();
    cfg.include_files = patterns(&["guide"]);
    let jobs = collect_jobs(&c, &cfg);
    assert_eq!(jobs.len(), 1);
    assert_eq!(jobs[0].resolved, b"root/src/guide/gone.md".to_vec());
}

#[test]
fn the_empty_pattern_matches_every_path() {
    let c = corpus(vec![doc("guide/a.md"), doc("misc/b.md")]);
    let mut cfg = Config::default();
    cfg.include_files = patterns(&[""]);
    assert_eq!(collect_jobs(&c, &cfg).len(), 2);
}

#[test]
fn drafts_are_skipped_only_when_drafts_are_not_checked() {
    let draft = Document {
        path: Some(b"d.md".to_vec()),
        content: b"see [gone](gone.md)\n".to_vec(),
        is_draft: true,
    };
    let c = corpus(vec![draft]);

    let cfg = Config::default();
    assert_eq!(collect_jobs(&c, &cfg).len(), 1);

    let mut no_drafts = Config::default();
    no_drafts.check_drafts = false;
    assert_eq!(collect_jobs(&c, &no_drafts).len(), 0);
}

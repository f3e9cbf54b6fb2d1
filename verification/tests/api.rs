use hf_hub::api::wasm::{
    download_range, plan_chunks, range_header, try_plan_chunks, ApiBuilder, Metadata, UrlTemplate,
};
use hf_hub::types::{
    BlobChunkOffset, BlobHashPath, Endpoint, FilePath, HfUrlTemplate, RepoId, RevisionPath,
    TmpFileBlobKey,
};
use hf_hub::{Cache, Repo};

fn strings(parts: &[&str]) -> Vec<String> {
    parts.iter().map(|s| s.to_string()).collect()
}

fn blob() -> BlobHashPath {
    BlobHashPath(strings(&["huggingface", "hub", "models--gpt2", "blobs", "e"]))
}

fn names(list: &[Result<TmpFileBlobKey, TmpFileBlobKey>]) -> Vec<String> {
    list.iter()
        .map(|r| match r {
            Ok(k) => format!("ok {}", k.0.last().unwrap()),
            Err(k) => format!("get {}", k.0.last().unwrap()),
        })
        .collect()
}

fn cached(s: usize, e: usize, total: usize) -> TmpFileBlobKey {
    blob().chunk(BlobChunkOffset(s), BlobChunkOffset(e), BlobChunkOffset(total))
}

#[test]
fn url_template_default_and_as_str() {
    let t = UrlTemplate::default();
    assert_eq!(t.as_str(), "{endpoint}/{repo_id}/resolve/{revision}/{filename}");
    assert_eq!(UrlTemplate::Custom("x".to_string()).as_str(), "x");
}

#[test]
fn url_template_url() {
    let t = UrlTemplate::Hf(HfUrlTemplate("{endpoint}|{repo_id}|{revision}|{filename}".to_string()));
    let repo = Repo::space(RepoId("a/b".to_string()));
    let url = t.url(
        &Endpoint::default(),
        &repo,
        &RevisionPath("r/1".to_string()),
        &FilePath("f".to_string()),
    );
    assert_eq!(url.0, "https://huggingface.co|spaces/a/b|r%2F1|f");
}

#[test]
fn api_builder_defaults() {
    let b = ApiBuilder::new();
    assert_eq!(b.endpoint.0, "https://huggingface.co");
    assert_eq!(b.cache.path, strings(&["huggingface", "hub"]));
    assert_eq!(b.url_template.as_str(), "{endpoint}/{repo_id}/resolve/{revision}/{filename}");
    assert_eq!(b.max_files, 1);
    assert_eq!(b.chunk_size, 10 * 1024 * 1024);
    assert_eq!(b.parallel_failures, 0);
    assert_eq!(b.max_retries, 0);
    assert!(b.progress);
    let d = ApiBuilder::default();
    assert_eq!(d.chunk_size, b.chunk_size);
}

#[test]
fn api_builder_setters() {
    let b = ApiBuilder::new().with_progress(false);
    assert!(!b.progress);
    let b = b.with_cache_dir(Cache::new(strings(&["tmp"])));
    assert_eq!(b.cache.path, strings(&["tmp"]));
    assert!(!b.progress);
    let w = ApiBuilder::with(
        Cache::new(strings(&["c"])),
        Endpoint("http://local".to_string()),
        UrlTemplate::Custom("t".to_string()),
    );
    assert_eq!(w.endpoint.0, "http://local");
    assert_eq!(w.url_template.as_str(), "t");
    assert!(w.progress);
}

#[test]
fn metadata_from_headers() {
    let m = Metadata::from_headers(
        Some("\"linked\""),
        Some("\"plain\""),
        Some("abc123"),
        Some("bytes 0-0/5242880"),
    );
    assert_eq!(m.etag.0, "linked");
    assert_eq!(m.commit_hash.0, "abc123");
    assert_eq!(m.size, 5242880);
    let m = Metadata::from_headers(None, Some("\"plain\""), None, Some("1234"));
    assert_eq!(m.etag.0, "plain");
    assert_eq!(m.commit_hash.0, "");
    assert_eq!(m.size, 1234);
}

#[test]
fn range_headers() {
    assert_eq!(range_header(0, 0), "bytes=0-0");
    assert_eq!(range_header(10, 19), "bytes=10-19");
    let (size, range) = download_range(&cached(10, 20, 100));
    assert_eq!(size, 10);
    assert_eq!(range, "bytes=10-19");
}

#[test]
fn plan_without_cache_uses_full_chunks() {
    let plan = plan_chunks(&blob(), 25, 10, &Vec::new());
    assert_eq!(names(&plan), ["get 00-10", "get 10-20", "get 20-25"]);
    let plan = plan_chunks(&blob(), 0, 10, &Vec::new());
    assert!(plan.is_empty());
    let plan = plan_chunks(&blob(), 20, 10, &Vec::new());
    assert_eq!(names(&plan), ["get 00-10", "get 10-20"]);
}

#[test]
fn plan_keeps_cached_chunks() {
    let plan = plan_chunks(&blob(), 25, 10, &vec![cached(10, 20, 25)]);
    assert_eq!(names(&plan), ["get 00-10", "ok 10-20", "get 20-25"]);
    let plan = plan_chunks(&blob(), 25, 10, &vec![cached(5, 8, 25)]);
    assert_eq!(names(&plan), ["get 00-05", "ok 05-08", "get 08-18", "get 18-25"]);
    let plan = plan_chunks(&blob(), 25, 10, &vec![cached(0, 25, 25)]);
    assert_eq!(names(&plan), ["ok 00-25"]);
    // a cached chunk at or past the end is never reached
    let plan = plan_chunks(&blob(), 25, 10, &vec![cached(25, 25, 25)]);
    assert_eq!(names(&plan), ["get 00-10", "get 10-20", "get 20-25"]);
}

#[test]
fn plan_chunks_tile_the_file() {
    let keys = vec![cached(3, 7, 50), cached(7, 9, 50), cached(30, 45, 50)];
    let plan = plan_chunks(&blob(), 50, 8, &keys);
    let mut pos = 0;
    let mut kept = 0;
    for r in &plan {
        let (k, is_cached) = match r {
            Ok(k) => (k, true),
            Err(k) => (k, false),
        };
        let (_, s, e) = k.split();
        assert_eq!(s.0, pos);
        if is_cached {
            assert_eq!(k.0, keys[kept].0);
            kept += 1;
        } else {
            assert!(s.0 < e.0 && e.0 - s.0 <= 8 && e.0 <= 50);
        }
        pos = e.0;
    }
    assert_eq!(pos, 50);
    assert_eq!(kept, 3);
}

#[test]
fn try_plan_chunks_refuses_what_cannot_be_planned() {
    // a cached chunk that starts before the position reached
    let keys = vec![cached(0, 10, 25), cached(5, 8, 25)];
    assert!(try_plan_chunks(&blob(), 25, 10, &keys).is_none());
    // a cached key that does not split, once reached
    let bad = TmpFileBlobKey(strings(&["c", "no-offsets-x"]));
    assert!(try_plan_chunks(&blob(), 25, 10, &vec![bad.clone()]).is_none());
    let odd = TmpFileBlobKey(strings(&["c", "x"]));
    assert!(try_plan_chunks(&blob(), 25, 10, &vec![odd]).is_none());
    // chunks of no bytes would never end
    assert!(try_plan_chunks(&blob(), 25, 0, &Vec::new()).is_none());
}

#[test]
fn try_plan_chunks_agrees_with_plan_chunks() {
    // a key that is never reached does not matter
    let bad = TmpFileBlobKey(strings(&["c", "junk"]));
    let keys = vec![cached(0, 25, 25), bad];
    let tried = try_plan_chunks(&blob(), 25, 10, &keys).unwrap();
    assert_eq!(names(&tried), ["ok 00-25"]);
    assert_eq!(names(&plan_chunks(&blob(), 25, 10, &keys)), names(&tried));
    // no chunk size is needed when the cache holds everything
    let whole = vec![cached(0, 25, 25)];
    assert_eq!(names(&try_plan_chunks(&blob(), 25, 0, &whole).unwrap()), ["ok 00-25"]);
}

#[test]
fn plan_full_chunks_after_cache() {
    let keys = vec![cached(0, 3, 40)];
    let plan = plan_chunks(&blob(), 40, 16, &keys);
    assert_eq!(names(&plan), ["ok 00-03", "get 03-19", "get 19-35", "get 35-40"]);
}

#[test]
fn ordered_cache_can_always_be_planned() {
    let sets: Vec<Vec<(usize, usize)>> = vec![
        vec![],
        vec![(0, 0)],
        vec![(2, 2), (2, 9), (9, 60)],
        vec![(0, 100)],
        vec![(90, 150), (150, 150)],
    ];
    for set in sets {
        let keys: Vec<TmpFileBlobKey> = set.iter().map(|&(s, e)| cached(s, e, 100)).collect();
        for cs in [1usize, 7, 100, 1000] {
            assert!(try_plan_chunks(&blob(), 100, cs, &keys).is_some());
        }
    }
}

#[test]
fn metadata_and_templates_compare_by_value() {
    let a = Metadata::from_headers(None, Some("\"e\""), Some("c"), Some("bytes 0-0/7"));
    let b = Metadata::from_headers(Some("e"), None, Some("c"), Some("7"));
    assert_eq!(a, b);
    let c = Metadata::from_headers(Some("f"), None, Some("c"), Some("7"));
    assert_ne!(a, c);
    assert_eq!(UrlTemplate::default(), UrlTemplate::default());
    assert_ne!(UrlTemplate::default(), UrlTemplate::Custom("x".to_string()));
}

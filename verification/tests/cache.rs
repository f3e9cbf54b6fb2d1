use hf_hub::types::{BlobHash, DbStore, RepoId, RevisionHash, RevisionPath};
use hf_hub::{Cache, Repo, RepoType};

fn strings(parts: &[&str]) -> Vec<String> {
    parts.iter().map(|s| s.to_string()).collect()
}

#[test]
fn cache_token_path() {
    let cache = Cache::default();
    let token_path = cache.token_path().join("/");
    let n = "huggingface/token".len();
    assert_eq!(&token_path[token_path.len() - n..], "huggingface/token");
}

#[test]
fn token_path_of_empty_cache() {
    let cache = Cache::new(Vec::new());
    assert_eq!(cache.token_path(), strings(&["token"]));
}

#[test]
fn default_cache_location() {
    assert_eq!(Cache::default().path(), &strings(&["huggingface", "hub"]));
}

#[test]
fn cache_from_str_splits_on_slash() {
    let c = Cache::from_str("/tmp/hub").unwrap();
    assert_eq!(c.path, strings(&["", "tmp", "hub"]));
    let c: Cache = "x".parse().unwrap();
    assert_eq!(c.path, strings(&["x"]));
}

#[test]
fn parse_token_trims_and_rejects_empty() {
    assert_eq!(Cache::parse_token("hf_abc\n"), Some("hf_abc".to_string()));
    assert_eq!(Cache::parse_token("  \n"), None);
    assert_eq!(Cache::parse_token(""), None);
}

#[test]
fn repo_constructors() {
    let r = Repo::new(RepoId("gpt2".to_string()), RepoType::Model);
    assert_eq!(r.revision.0, "main");
    let r = Repo::with_revision(
        RepoId("gpt2".to_string()),
        RepoType::Space,
        RevisionPath("v1".to_string()),
    );
    assert!(matches!(r.repo_type, RepoType::Space));
    assert_eq!(r.revision.0, "v1");
    assert!(matches!(Repo::model(RepoId("a".to_string())).repo_type, RepoType::Model));
    assert!(matches!(Repo::dataset(RepoId("a".to_string())).repo_type, RepoType::Dataset));
    assert!(matches!(Repo::space(RepoId("a".to_string())).repo_type, RepoType::Space));
}

#[test]
fn folder_name_replaces_slashes() {
    let r = Repo::model(RepoId("EleutherAI/gpt-neox-20b".to_string()));
    assert_eq!(r.folder_name().0, "models--EleutherAI--gpt-neox-20b");
    let r = Repo::dataset(RepoId("a/b/c".to_string()));
    assert_eq!(r.folder_name().0, "datasets--a--b--c");
    let r = Repo::space(RepoId("s".to_string()));
    assert_eq!(r.folder_name().0, "spaces--s");
}

#[test]
fn repo_urls() {
    let r = Repo::with_revision(
        RepoId("org/m".to_string()),
        RepoType::Model,
        RevisionPath("refs/pr/1".to_string()),
    );
    assert_eq!(r.url(), "org/m");
    assert_eq!(r.api_url(), "models/org/m/revision/refs%2Fpr%2F1");
    let r = Repo::dataset(RepoId("d".to_string()));
    assert_eq!(r.url(), "datasets/d");
    assert_eq!(r.api_url(), "datasets/d/revision/main");
}

#[test]
fn cache_repo_paths() {
    let cache = Cache::new(strings(&["huggingface", "hub"]));
    let repo = cache.model(RepoId("org/m".to_string()));
    assert_eq!(repo.path().0, strings(&["huggingface", "hub", "models--org--m"]));
    assert_eq!(
        repo.ref_path().0,
        strings(&["huggingface", "hub", "models--org--m", "refs", "main"])
    );
    assert_eq!(
        repo.blob_path(&BlobHash("e".to_string())).0,
        strings(&["huggingface", "hub", "models--org--m", "blobs", "e"])
    );
    assert_eq!(
        repo.pointer_path(&RevisionHash("h".to_string())).0,
        strings(&["huggingface", "hub", "models--org--m", "snapshots", "h"])
    );
    let d = cache.dataset(RepoId("x".to_string()));
    assert_eq!(d.path().0, strings(&["huggingface", "hub", "datasets--x"]));
    let s = cache.space(RepoId("x".to_string()));
    assert_eq!(s.path().0, strings(&["huggingface", "hub", "spaces--x"]));
    let r = cache.repo(Repo::with_revision(
        RepoId("x".to_string()),
        RepoType::Model,
        RevisionPath("refs/pr/2".to_string()),
    ));
    assert_eq!(r.ref_path().0.last().unwrap(), "refs/pr/2");
}

#[test]
fn repo_paths_split_back() {
    let cache = Cache::new(strings(&["huggingface", "hub"]));
    let repo = cache.model(RepoId("org/m".to_string()));
    let (c, folder) = repo.path().split();
    assert_eq!(c.path, cache.path);
    assert_eq!(folder.0, repo.repo.folder_name().0);
    let (hub, hash) = repo.blob_path(&BlobHash("e".to_string())).split();
    assert_eq!(hub.0, repo.path().0);
    assert_eq!(hash.0, "e");
    let (hub, hash) = repo.pointer_path(&RevisionHash("h".to_string())).split();
    assert_eq!(hub.0, repo.path().0);
    assert_eq!(hash.0, "h");
}

#[test]
fn store_names() {
    let cache = Cache::default();
    assert_eq!(cache.store_name(&DbStore::RefHash), "huggingface/hub/ref_hash");
    assert_eq!(cache.store_name(&DbStore::Hub), "huggingface/hub");
    assert_eq!(cache.store_name(&DbStore::Path), "huggingface/hub/path");
    assert_eq!(cache.store_name(&DbStore::TmpFileBlob), "huggingface/hub/tmp_ref_file_blob");
}

#[test]
fn folder_name_is_one_component() {
    for id in ["a/b", "/x/", "plain", "//"] {
        for t in [RepoType::Model, RepoType::Dataset, RepoType::Space] {
            let r = Repo::new(RepoId(id.to_string()), t);
            assert!(!r.folder_name().0.contains('/'));
        }
    }
}

#[test]
fn temp_path_is_under_tmp_with_random_name() {
    let cache = Cache::new(strings(&["huggingface", "hub"]));
    let a = cache.temp_path();
    assert_eq!(a.len(), 4);
    assert_eq!(&a[..3], &strings(&["huggingface", "hub", "tmp"])[..]);
    assert_eq!(a[3].chars().count(), 7);
    assert!(a[3].chars().all(|c| c.is_ascii_alphanumeric()));
    let b = cache.temp_path();
    let c = cache.temp_path();
    assert!(a[3] != b[3] || b[3] != c[3]);
}

use hf_hub::types::{
    BlobChunkOffset, BlobHash, BlobHashPath, DbStore, Endpoint, FilePath, FilesPath, HfUrlTemplate,
    HubPath, PathKey, RepoId, RevisionHash, RevisionPath, TmpFileBlobKey,
};
use hf_hub::{Cache, Repo, RepoType};

fn strings(parts: &[&str]) -> Vec<String> {
    parts.iter().map(|s| s.to_string()).collect()
}

#[test]
fn hf_url_template_fills_placeholders() {
    let repo = Repo::model(RepoId("gpt2".to_string()));
    let url = HfUrlTemplate::default().url(
        &Endpoint::default(),
        &repo,
        &RevisionPath("main".to_string()),
        &FilePath("model.safetensors".to_string()),
    );
    assert_eq!(url.0, "https://huggingface.co/gpt2/resolve/main/model.safetensors");
}

#[test]
fn hf_url_template_escapes_revision_and_prefixes_repo_type() {
    let repo = Repo::dataset(RepoId("org/data".to_string()));
    let url = HfUrlTemplate::default().url(
        &Endpoint("http://e".to_string()),
        &repo,
        &RevisionPath("refs/pr/1".to_string()),
        &FilePath("a/b.json".to_string()),
    );
    assert_eq!(url.0, "http://e/datasets/org/data/resolve/refs%2Fpr%2F1/a/b.json");
}

#[test]
fn repo_id_url_by_type() {
    let id = RepoId("EleutherAI/gpt-neox-20b".to_string());
    assert_eq!(id.url(&RepoType::Model), "EleutherAI/gpt-neox-20b");
    assert_eq!(id.url(&RepoType::Dataset), "datasets/EleutherAI/gpt-neox-20b");
    assert_eq!(id.url(&RepoType::Space), "spaces/EleutherAI/gpt-neox-20b");
}

#[test]
fn revision_url_escapes_slashes() {
    assert_eq!(RevisionPath("main".to_string()).url(), "main");
    assert_eq!(RevisionPath("refs/pr/1".to_string()).url(), "refs%2Fpr%2F1");
}

#[test]
fn hub_path_from_str() {
    let h = HubPath::from_str("huggingface/hub/models--gpt2").unwrap();
    assert_eq!(h.0, strings(&["huggingface", "hub", "models--gpt2"]));
    let h = HubPath::from_str("models--gpt2").unwrap();
    assert_eq!(h.0, strings(&["", "models--gpt2"]));
    let h: HubPath = "a/b".parse().unwrap();
    assert_eq!(h.0, strings(&["a", "b"]));
}

#[test]
fn hub_key_split() {
    let h = HubPath(strings(&["huggingface", "hub", "models--gpt2"]));
    let (cache, folder) = h.split();
    assert_eq!(cache.path, strings(&["huggingface", "hub"]));
    assert_eq!(folder.0, "models--gpt2");
}

#[test]
fn path_key_split() {
    let k = PathKey(strings(&["huggingface", "hub", "models--gpt2", "refs"]));
    let (cache, folder) = k.split();
    assert_eq!(cache.path, strings(&["huggingface", "hub"]));
    assert_eq!(folder.0, "models--gpt2");
}

#[test]
fn files_key_split() {
    let k = FilesPath(strings(&["huggingface", "hub", "models--gpt2", "snapshots", "abc123"]));
    let (hub, hash) = k.split();
    assert_eq!(hub.0, strings(&["huggingface", "hub", "models--gpt2"]));
    assert_eq!(hash.0, "abc123");
}

#[test]
fn file_blob_key_split() {
    let k = BlobHashPath(strings(&["huggingface", "hub", "models--gpt2", "blobs", "e1"]));
    let (hub, hash) = k.split();
    assert_eq!(hub.0, strings(&["huggingface", "hub", "models--gpt2"]));
    assert_eq!(hash.0, "e1");
}

#[test]
fn file_blob_key_chunk_pads_to_total_width() {
    let k = BlobHashPath(strings(&["c", "models--gpt2", "blobs", "e1"]));
    let chunk = k.chunk(BlobChunkOffset(0), BlobChunkOffset(1024), BlobChunkOffset(4096));
    assert_eq!(chunk.0, strings(&["c", "models--gpt2", "blobs", "e1", "0000-1024"]));
    let chunk = k.chunk(BlobChunkOffset(0), BlobChunkOffset(0), BlobChunkOffset(0));
    assert_eq!(chunk.0.last().unwrap(), "0-0");
    let chunk = k.chunk(BlobChunkOffset(3), BlobChunkOffset(12), BlobChunkOffset(9));
    assert_eq!(chunk.0.last().unwrap(), "3-12");
}

#[test]
fn chunk_key_splits_back() {
    let k = BlobHashPath(strings(&["c", "models--gpt2", "blobs", "e1"]));
    for (s, e, t) in [(0usize, 10usize, 25usize), (20, 25, 25), (0, 0, 0), (7, 3, 100000)] {
        let chunk = k.chunk(BlobChunkOffset(s), BlobChunkOffset(e), BlobChunkOffset(t));
        let (blob, start, end) = chunk.split();
        assert_eq!(blob.0, k.0);
        assert_eq!(start.0, s);
        assert_eq!(end.0, e);
    }
}

#[test]
fn tmp_file_blob_key_split_reads_offsets() {
    let k = TmpFileBlobKey(strings(&["c", "f", "blobs", "e", "010-020"]));
    let (blob, start, end) = k.split();
    assert_eq!(blob.0, strings(&["c", "f", "blobs", "e"]));
    assert_eq!(start.0, 10);
    assert_eq!(end.0, 20);
    let k = TmpFileBlobKey(strings(&["x", "+5-7-9"]));
    let (_, start, end) = k.split();
    assert_eq!((start.0, end.0), (5, 7));
}

#[test]
fn blob_hash_path_from_str() {
    let b = BlobHashPath::from_str("huggingface/hub/models--gpt2/blobs/e1").unwrap();
    assert_eq!(b.0, strings(&["huggingface", "hub", "models--gpt2", "blobs", "e1"]));
    // the piece before the hash is read as "blobs" whatever it holds
    let b = BlobHashPath::from_str("c/f/x/e1").unwrap();
    assert_eq!(b.0, strings(&["c", "f", "blobs", "e1"]));
    let b = BlobHashPath::from_str("a/b").unwrap();
    assert_eq!(b.0, strings(&["", "", "blobs", "b"]));
}

#[test]
fn tmp_file_blob_key_from_str_reads_back_joined_key() {
    let cache = Cache::new(strings(&["huggingface", "hub"]));
    let repo = cache.model(RepoId("EleutherAI/gpt-neox-20b".to_string()));
    let blob = repo.blob_path(&BlobHash("etag1".to_string()));
    let key = blob.chunk(BlobChunkOffset(10), BlobChunkOffset(20), BlobChunkOffset(1000));
    let joined = key.0.join("/");
    assert_eq!(joined, "huggingface/hub/models--EleutherAI--gpt-neox-20b/blobs/etag1/0010-0020");
    let back = TmpFileBlobKey::from_str(&joined).unwrap();
    assert_eq!(back.0, key.0);
}

#[test]
fn chunk_names_sort_by_offsets() {
    let k = BlobHashPath(strings(&["c"]));
    let total = 2048;
    let name = |s: usize, e: usize| {
        k.chunk(BlobChunkOffset(s), BlobChunkOffset(e), BlobChunkOffset(total)).0[1].clone()
    };
    let offsets = [(0usize, 0usize), (0, 1024), (5, 10), (10, 5), (1024, 2048), (2048, 2048)];
    for &(s1, e1) in &offsets {
        for &(s2, e2) in &offsets {
            assert_eq!(name(s1, e1) < name(s2, e2), (s1, e1) < (s2, e2));
        }
        assert!(name(s1, e1) >= name(0, 0));
        assert!(name(s1, e1) <= name(total, total));
    }
}

#[test]
fn db_store_names() {
    assert_eq!(DbStore::Hub.name(), "");
    assert_eq!(DbStore::Path.name(), "path");
    assert_eq!(DbStore::RefHash.name(), "ref_hash");
    assert_eq!(DbStore::Files.name(), "ref_files");
    assert_eq!(DbStore::FileHash.name(), "ref_file_hash");
    assert_eq!(DbStore::FileBlob.name(), "ref_file_blob");
    assert_eq!(DbStore::TmpFileBlob.name(), "tmp_ref_file_blob");
}

#[test]
fn revision_hash_is_plain() {
    let h = RevisionHash("abc".to_string());
    assert_eq!(h.0, "abc");
}

#[test]
fn chunk_offsets_or_nothing() {
    let k = TmpFileBlobKey(strings(&["c", "07-12"]));
    let (s, e) = k.offsets().unwrap();
    assert_eq!((s.0, e.0), (7, 12));
    assert!(TmpFileBlobKey(strings(&["c", "7"])).offsets().is_none());
    assert!(TmpFileBlobKey(strings(&["c", "a-1"])).offsets().is_none());
    assert!(TmpFileBlobKey(Vec::new()).offsets().is_none());
}

#[test]
fn hub_path_reads_back() {
    let hub = strings(&["huggingface", "hub", "models--gpt2"]);
    assert_eq!(HubPath::from_str(&hub.join("/")).unwrap().0, hub);
}

#[test]
fn escaped_revision_is_one_segment() {
    for r in ["refs/pr/1", "/", "a//b", "main"] {
        assert!(!RevisionPath(r.to_string()).url().contains('/'));
    }
}

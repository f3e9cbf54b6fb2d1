//! The local cache: where the files of a repo are kept, by path.

use vstd::prelude::*;
use rand::Rng;
use crate::text::{
    join_char, join_spec, lemma_replace_char_absent, lemma_replace_char_concat,
    lemma_replace_char_removes, replace_char, replace_char_spec, split_char, split_spec, trim,
    trim_spec,
};
use crate::types::wasm::{DbStore, db_store_name_spec};
use crate::types::{
    path_prefix, repo_url_spec, revision_url_spec, BlobHash, BlobHashPath, FilesPath, FolderName,
    HubPath, HubRevPath, RepoId, RevisionHash, RevisionPath,
};

verus! {

/// A path, as its components in order.
pub type PathType = Vec<String>;

/// The type of repo to interact with
#[derive(Debug, Clone, Copy)]
pub enum RepoType {
    /// This is a model, usually it consists of weight files and some configuration
    /// files
    Model,
    /// This is a dataset, usually contains data within parquet files
    Dataset,
    /// This is a space, usually a demo showcashing a given model or dataset
    Space,
}

/// A local struct used to fetch information from the cache folder.
#[derive(Clone, Debug)]
pub struct Cache {
    /// The location of the cache, as path components.
    pub path: PathType,
}

impl View for Cache {
    type V = Seq<Seq<char>>;

    open spec fn view(&self) -> Seq<Seq<char>> {
        self.path.deep_view()
    }
}

impl Cache {
    /// Creates a new cache object location
    pub fn new(path: PathType) -> (r: Self)
        ensures
            r@ == path.deep_view(),
    {
        Self { path }
    }

    /// The location of the cache.
    pub fn path(&self) -> (r: &PathType)
        ensures
            r.deep_view() == self@,
    {
        &self.path
    }

    /// Returns the location of the token file: the cache path without its
    /// last component (`"hub"`), then `"token"`.
    pub fn token_path(&self) -> (r: PathType)
        ensures
            r.deep_view() == (if self@.len() > 0 {
                self@.drop_last()
            } else {
                self@
            }).push("token"@),
    {
        let mut path = path_prefix(&self.path, self.path.len());
        assert(self@.take(self@.len() as int) =~= self@);
        let ghost before = path.deep_view();
        let _ = path.pop();
        assert(path.deep_view() =~= (if before.len() > 0 {
            before.drop_last()
        } else {
            before
        }));
        let ghost mid = path.deep_view();
        path.push(String::from_str("token"));
        assert(path.deep_view() =~= mid.push("token"@));
        path
    }

    /// A fresh path for a temporary file: "[Cache]/tmp/[name]", the name seven
    /// ASCII letters and digits drawn at random.
    pub fn temp_path(&self) -> (r: PathType)
        ensures
            r.deep_view().len() == self@.len() + 2,
            r.deep_view().take(self@.len() as int) == self@,
            r.deep_view()[self@.len() as int] == "tmp"@,
            r.deep_view().last().len() == 7,
            forall|i: int|
                0 <= i < 7 ==> is_ascii_alphanumeric(#[trigger] r.deep_view().last()[i]),
    {
        let mut path = path_prefix(&self.path, self.path.len());
        assert(self@.take(self@.len() as int) =~= self@);
        let ghost before = path.deep_view();
        path.push(String::from_str("tmp"));
        let name = random_alphanumeric(7);
        path.push(name);
        assert(path.deep_view() =~= before.push("tmp"@).push(name@));
        path
    }

    /// The token held by the contents of a token file: the contents without
    /// leading and trailing white space, or nothing when that is empty.
    pub fn parse_token(content: &str) -> (r: Option<String>)
        ensures
            r is None <==> trim_spec(content@).len() == 0,
            r matches Some(t) ==> t@ == trim_spec(content@),
    {
        let t = trim(content);
        if t.as_str().unicode_len() == 0 {
            None
        } else {
            Some(t)
        }
    }

    /// Creates a new handle [`CacheRepo`] which contains operations
    /// on a particular [`Repo`]
    pub fn repo(&self, repo: Repo) -> (r: CacheRepo)
        ensures
            r.cache@ == self@,
            r.repo == repo,
    {
        let path = path_prefix(&self.path, self.path.len());
        assert(self@.take(self@.len() as int) =~= self@);
        CacheRepo::new(Cache { path }, repo)
    }

    /// Simple wrapper over `self.repo(Repo::new(model_id, RepoType::Model))`.
    pub fn model(&self, model_id: RepoId) -> (r: CacheRepo)
        ensures
            r.cache@ == self@,
            r.repo.repo_id == model_id,
            r.repo.repo_type == RepoType::Model,
            r.repo.revision@ == "main"@,
    {
        self.repo(Repo::new(model_id, RepoType::Model))
    }

    /// Simple wrapper over `self.repo(Repo::new(model_id, RepoType::Dataset))`.
    pub fn dataset(&self, model_id: RepoId) -> (r: CacheRepo)
        ensures
            r.cache@ == self@,
            r.repo.repo_id == model_id,
            r.repo.repo_type == RepoType::Dataset,
            r.repo.revision@ == "main"@,
    {
        self.repo(Repo::new(model_id, RepoType::Dataset))
    }

    /// Simple wrapper over `self.repo(Repo::new(model_id, RepoType::Space))`.
    pub fn space(&self, model_id: RepoId) -> (r: CacheRepo)
        ensures
            r.cache@ == self@,
            r.repo.repo_id == model_id,
            r.repo.repo_type == RepoType::Space,
            r.repo.revision@ == "main"@,
    {
        self.repo(Repo::new(model_id, RepoType::Space))
    }

    /// The name of the browser object store `store` of this cache: "[Cache]"
    /// for [DbStore::Hub], "[Cache]/[store name]" for the others.
    pub fn store_name(&self, store: &DbStore) -> (r: String)
        ensures
            r@ == store_name_spec(self@, *store),
    {
        let mut parts = path_prefix(&self.path, self.path.len());
        assert(self@.take(self@.len() as int) =~= self@);
        if let DbStore::Hub = store {
            return join_char(&parts, '/');
        }
        let ghost before = parts.deep_view();
        parts.push(String::from_str(store.name()));
        assert(parts.deep_view() =~= before.push(db_store_name_spec(*store)));
        join_char(&parts, '/')
    }

    /// Reads a cache location from its `/`-separated form.  Never fails.
    pub fn from_str(s: &str) -> (r: Result<Self, ()>)
        ensures
            r matches Ok(c) && c@ == split_spec(s@, '/'),
    {
        let path = split_char(s, '/');
        Ok(Self { path })
    }
}

/// The name of a browser object store of a cache: the cache path joined
/// with `/` for [DbStore::Hub], and that followed by `/` and the store's name
/// for the others.
pub open spec fn store_name_spec(cache: Seq<Seq<char>>, store: DbStore) -> Seq<char> {
    match store {
        DbStore::Hub => join_spec(cache, '/'),
        _ => join_spec(cache.push(db_store_name_spec(store)), '/'),
    }
}

/// An ASCII letter or digit.
pub open spec fn is_ascii_alphanumeric(c: char) -> bool {
    ('a' <= c && c <= 'z') || ('A' <= c && c <= 'Z') || ('0' <= c && c <= '9')
}

/// `n` characters drawn at random by `rand`'s `Alphanumeric` distribution
/// from the thread's generator (`rand::thread_rng`).  Trusted: each character
/// is one of a-z, A-Z and 0-9, as the distribution's documentation and source
/// show; which ones come out is left open, as it rests on chance.
#[verifier::external_body]
fn random_alphanumeric(n: usize) -> (r: String)
    ensures
        r@.len() == n,
        forall|i: int| 0 <= i < n ==> is_ascii_alphanumeric(#[trigger] r@[i]),
{
    rand::thread_rng().sample_iter(&rand::distributions::Alphanumeric).take(n).map(char::from).collect()
}

/// The default location of the cache in the browser store.
pub open spec fn default_cache_spec() -> Seq<Seq<char>> {
    seq!["huggingface"@, "hub"@]
}

impl Default for Cache {
    /// "huggingface/hub".
    fn default() -> (r: Self)
        ensures
            r@ == default_cache_spec(),
    {
        let mut path: PathType = Vec::new();
        path.push(String::from_str("huggingface"));
        path.push(String::from_str("hub"));
        assert(path.deep_view() =~= default_cache_spec());
        Self::new(path)
    }
}

/// Shorthand for accessing things within a particular repo
#[derive(Debug)]
pub struct CacheRepo {
    /// The cache that holds the repo.
    pub cache: Cache,
    /// The repo.
    pub repo: Repo,
}

/// The path of a repo's folder in a cache: "[Cache]/[FolderName]".
pub open spec fn repo_path_spec(cache: Seq<Seq<char>>, repo: Repo) -> Seq<Seq<char>> {
    cache.push(folder_name_spec(repo.repo_type, repo.repo_id@))
}

impl CacheRepo {
    fn new(cache: Cache, repo: Repo) -> (r: Self)
        ensures
            r.cache == cache,
            r.repo == repo,
    {
        Self { cache, repo }
    }

    /// "[Cache]/[FolderName]".
    pub fn path(&self) -> (r: HubPath)
        ensures
            r@ == repo_path_spec(self.cache@, self.repo),
    {
        let mut ref_path = path_prefix(&self.cache.path, self.cache.path.len());
        assert(self.cache@.take(self.cache@.len() as int) =~= self.cache@);
        let ghost before = ref_path.deep_view();
        ref_path.push(self.repo.folder_name().0);
        assert(ref_path.deep_view() =~= before.push(folder_name_spec(self.repo.repo_type, self.repo.repo_id@)));
        HubPath(ref_path)
    }

    /// "[Cache]/[FolderName]/refs/[RevisionPath]".
    pub fn ref_path(&self) -> (r: HubRevPath)
        ensures
            r@ == repo_path_spec(self.cache@, self.repo).push("refs"@).push(self.repo.revision@),
    {
        let mut ref_path = self.path().0;
        let ghost a = ref_path.deep_view();
        ref_path.push(String::from_str("refs"));
        ref_path.push(self.repo.revision.0.clone());
        assert(ref_path.deep_view() =~= a.push("refs"@).push(self.repo.revision@));
        HubRevPath(ref_path)
    }

    /// "[Cache]/[FolderName]/blobs/[BlobHash]".
    pub fn blob_path(&self, etag: &BlobHash) -> (r: BlobHashPath)
        ensures
            r@ == repo_path_spec(self.cache@, self.repo).push("blobs"@).push(etag@),
    {
        let mut blob_path = self.path().0;
        let ghost a = blob_path.deep_view();
        blob_path.push(String::from_str("blobs"));
        blob_path.push(etag.0.clone());
        assert(blob_path.deep_view() =~= a.push("blobs"@).push(etag@));
        BlobHashPath(blob_path)
    }

    /// "[Cache]/[FolderName]/snapshots/[RevisionHash]".
    pub fn pointer_path(&self, commit_hash: &RevisionHash) -> (r: FilesPath)
        ensures
            r@ == repo_path_spec(self.cache@, self.repo).push("snapshots"@).push(commit_hash@),
    {
        let mut pointer_path = self.path().0;
        let ghost a = pointer_path.deep_view();
        pointer_path.push(String::from_str("snapshots"));
        pointer_path.push(commit_hash.0.clone());
        assert(pointer_path.deep_view() =~= a.push("snapshots"@).push(commit_hash@));
        FilesPath(pointer_path)
    }
}

impl std::str::FromStr for Cache {
    type Err = ();

    /// Reads a cache location from its `/`-separated form.  Never fails.
    fn from_str(s: &str) -> (r: Result<Self, Self::Err>)
        ensures
            r matches Ok(c) && c@ == split_spec(s@, '/'),
    {
        Cache::from_str(s)
    }
}

/// The representation of a repo on the hub.
#[derive(Clone, Debug)]
pub struct Repo {
    /// Which repo, eg. "EleutherAI/gpt-neox-20b".
    pub repo_id: RepoId,
    /// Whether it is a model, a dataset or a space.
    pub repo_type: RepoType,
    /// The branch, tag or commit, eg. "main".
    pub revision: RevisionPath,
}

/// The plural word that names a repo type in paths and urls.
pub open spec fn repo_type_plural(repo_type: RepoType) -> Seq<char> {
    match repo_type {
        RepoType::Model => "models"@,
        RepoType::Dataset => "datasets"@,
        RepoType::Space => "spaces"@,
    }
}

/// The folder of a repo in the cache: "[type]--[RepoId]", with each `/`
/// of the whole replaced by `--`.
pub open spec fn folder_name_spec(repo_type: RepoType, repo_id: Seq<char>) -> Seq<char> {
    replace_char_spec(repo_type_plural(repo_type) + "--"@ + repo_id, '/', "--"@)
}

/// The repo's url part for its metadata: "[type]/[RepoId]/revision/[revision]",
/// with the revision url escaped.
pub open spec fn api_url_spec(repo_type: RepoType, repo_id: Seq<char>, revision: Seq<char>) -> Seq<
    char,
> {
    repo_type_plural(repo_type) + "/"@ + repo_id + "/revision/"@ + revision_url_spec(revision)
}

/// A repo's folder name is a single path component: it holds no `/`.
pub proof fn lemma_folder_name_has_no_slash(repo_type: RepoType, repo_id: Seq<char>)
    ensures
        !folder_name_spec(repo_type, repo_id).contains('/'),
{
    reveal_strlit("--");
    assert(!"--"@.contains('/')) by {
        if "--"@.contains('/') {
            let k = choose|k: int| 0 <= k < "--"@.len() && "--"@[k] == '/';
            assert("--"@[k] == '-');
        }
    }
    lemma_replace_char_removes(
        repo_type_plural(repo_type) + "--"@ + repo_id,
        '/',
        "--"@,
    );
}

/// The plural word of a repo type, as it is spelled in cache folders and
/// in api urls.
proof fn lemma_type_word(repo_type: RepoType)
    ensures
        repo_type_plural(repo_type) == (match repo_type {
            RepoType::Model => seq!['m', 'o', 'd', 'e', 'l', 's'],
            RepoType::Dataset => seq!['d', 'a', 't', 'a', 's', 'e', 't', 's'],
            RepoType::Space => seq!['s', 'p', 'a', 'c', 'e', 's'],
        }),
{
    reveal_strlit("models");
    reveal_strlit("datasets");
    reveal_strlit("spaces");
    match repo_type {
        RepoType::Model => assert("models"@ =~= seq!['m', 'o', 'd', 'e', 'l', 's']),
        RepoType::Dataset => assert("datasets"@ =~= seq!['d', 'a', 't', 'a', 's', 'e', 't', 's']),
        RepoType::Space => assert("spaces"@ =~= seq!['s', 'p', 'a', 'c', 'e', 's']),
    }
}

/// A repo's cache folder is the plural word of its type ("models",
/// "datasets" or "spaces"), then "--", then its id with each `/` replaced
/// by "--" and every other character kept as it is; an id without `/`
/// stands in it unchanged.
pub proof fn lemma_folder_name_layout(repo_type: RepoType, repo_id: Seq<char>)
    ensures
        folder_name_spec(repo_type, repo_id) == (match repo_type {
            RepoType::Model => seq!['m', 'o', 'd', 'e', 'l', 's'],
            RepoType::Dataset => seq!['d', 'a', 't', 'a', 's', 'e', 't', 's'],
            RepoType::Space => seq!['s', 'p', 'a', 'c', 'e', 's'],
        }) + seq!['-', '-'] + replace_char_spec(repo_id, '/', seq!['-', '-']),
        !repo_id.contains('/') ==> folder_name_spec(repo_type, repo_id) == (match repo_type {
            RepoType::Model => seq!['m', 'o', 'd', 'e', 'l', 's'],
            RepoType::Dataset => seq!['d', 'a', 't', 'a', 's', 'e', 't', 's'],
            RepoType::Space => seq!['s', 'p', 'a', 'c', 'e', 's'],
        }) + seq!['-', '-'] + repo_id,
{
    lemma_type_word(repo_type);
    reveal_strlit("--");
    let dashes = seq!['-', '-'];
    assert("--"@ =~= dashes);
    let head = repo_type_plural(repo_type) + dashes;
    assert(!head.contains('/')) by {
        if head.contains('/') {
            let k = choose|k: int| 0 <= k < head.len() && head[k] == '/';
            assert(head[k] == '/');
        }
    }
    lemma_replace_char_concat(head, repo_id, '/', dashes);
    lemma_replace_char_absent(head, '/', dashes);
    if !repo_id.contains('/') {
        lemma_replace_char_absent(repo_id, '/', dashes);
    }
}

/// A repo's api url is the same plural word of its type as its cache folder
/// starts with ("models", "datasets" or "spaces"), then `/`, its id,
/// "/revision/" and its revision with each `/` escaped as "%2F" and every
/// other character kept; a revision without `/` stands in it unchanged.  In
/// the url of a file, the repo stands as its id for a model, and as the
/// same word, `/` and its id for a dataset or a space.
pub proof fn lemma_api_url_layout(repo_type: RepoType, repo_id: Seq<char>, revision: Seq<char>)
    ensures
        api_url_spec(repo_type, repo_id, revision) == (match repo_type {
            RepoType::Model => seq!['m', 'o', 'd', 'e', 'l', 's'],
            RepoType::Dataset => seq!['d', 'a', 't', 'a', 's', 'e', 't', 's'],
            RepoType::Space => seq!['s', 'p', 'a', 'c', 'e', 's'],
        }) + seq!['/'] + repo_id + seq!['/', 'r', 'e', 'v', 'i', 's', 'i', 'o', 'n', '/']
            + replace_char_spec(revision, '/', seq!['%', '2', 'F']),
        !revision.contains('/') ==> revision_url_spec(revision) == revision,
        api_url_spec(repo_type, repo_id, revision).take(repo_type_plural(repo_type).len() as int)
            == folder_name_spec(repo_type, repo_id).take(
            repo_type_plural(repo_type).len() as int,
        ),
        repo_url_spec(repo_id, repo_type) == (match repo_type {
            RepoType::Model => repo_id,
            RepoType::Dataset => seq!['d', 'a', 't', 'a', 's', 'e', 't', 's', '/'] + repo_id,
            RepoType::Space => seq!['s', 'p', 'a', 'c', 'e', 's', '/'] + repo_id,
        }),
{
    reveal_strlit("datasets/");
    reveal_strlit("spaces/");
    assert("datasets/"@ =~= seq!['d', 'a', 't', 'a', 's', 'e', 't', 's', '/']);
    assert("spaces/"@ =~= seq!['s', 'p', 'a', 'c', 'e', 's', '/']);
    lemma_type_word(repo_type);
    lemma_folder_name_layout(repo_type, repo_id);
    reveal_strlit("/");
    reveal_strlit("/revision/");
    reveal_strlit("%2F");
    assert("/"@ =~= seq!['/']);
    assert("/revision/"@ =~= seq!['/', 'r', 'e', 'v', 'i', 's', 'i', 'o', 'n', '/']);
    assert("%2F"@ =~= seq!['%', '2', 'F']);
    if !revision.contains('/') {
        lemma_replace_char_absent(revision, '/', "%2F"@);
    }
    let w = repo_type_plural(repo_type);
    let api = api_url_spec(repo_type, repo_id, revision);
    let folder = folder_name_spec(repo_type, repo_id);
    assert(api =~= w + (seq!['/'] + repo_id + "/revision/"@ + revision_url_spec(revision)));
    assert(api.take(w.len() as int) =~= w);
    assert(folder.take(w.len() as int) =~= w);
}

/// The plural word for a repo type.
fn plural(repo_type: &RepoType) -> (r: String)
    ensures
        r@ == repo_type_plural(*repo_type),
{
    match repo_type {
        RepoType::Model => String::from_str("models"),
        RepoType::Dataset => String::from_str("datasets"),
        RepoType::Space => String::from_str("spaces"),
    }
}

impl Repo {
    /// Repo with the default branch ("main").
    pub fn new(repo_id: RepoId, repo_type: RepoType) -> (r: Self)
        ensures
            r.repo_id == repo_id,
            r.repo_type == repo_type,
            r.revision@ == "main"@,
    {
        Self::with_revision(repo_id, repo_type, RevisionPath(String::from_str("main")))
    }

    /// fully qualified Repo
    pub fn with_revision(repo_id: RepoId, repo_type: RepoType, revision: RevisionPath) -> (r: Self)
        ensures
            r.repo_id == repo_id,
            r.repo_type == repo_type,
            r.revision == revision,
    {
        Self { repo_id, repo_type, revision }
    }

    /// Shortcut for [`Repo::new`] with [`RepoType::Model`]
    pub fn model(repo_id: RepoId) -> (r: Self)
        ensures
            r.repo_id == repo_id,
            r.repo_type == RepoType::Model,
            r.revision@ == "main"@,
    {
        Self::new(repo_id, RepoType::Model)
    }

    /// Shortcut for [`Repo::new`] with [`RepoType::Dataset`]
    pub fn dataset(repo_id: RepoId) -> (r: Self)
        ensures
            r.repo_id == repo_id,
            r.repo_type == RepoType::Dataset,
            r.revision@ == "main"@,
    {
        Self::new(repo_id, RepoType::Dataset)
    }

    /// Shortcut for [`Repo::new`] with [`RepoType::Space`]
    pub fn space(repo_id: RepoId) -> (r: Self)
        ensures
            r.repo_id == repo_id,
            r.repo_type == RepoType::Space,
            r.revision@ == "main"@,
    {
        Self::new(repo_id, RepoType::Space)
    }

    /// The normalized folder name of the repo within the cache directory
    pub fn folder_name(&self) -> (r: FolderName)
        ensures
            r@ == folder_name_spec(self.repo_type, self.repo_id@),
    {
        let mut name = plural(&self.repo_type);
        name.append("--");
        name.append(self.repo_id.0.as_str());
        FolderName(replace_char(name.as_str(), '/', "--"))
    }

    /// The actual URL part of the repo
    pub fn url(&self) -> (r: String)
        ensures
            r@ == repo_url_spec(self.repo_id@, self.repo_type),
    {
        self.repo_id.url(&self.repo_type)
    }

    /// Used to compute the repo's url part when accessing the metadata of the repo
    pub fn api_url(&self) -> (r: String)
        ensures
            r@ == api_url_spec(self.repo_type, self.repo_id@, self.revision@),
    {
        let mut r = plural(&self.repo_type);
        r.append("/");
        r.append(self.repo_id.0.as_str());
        r.append("/revision/");
        let rev = self.revision.url();
        r.append(rev.as_str());
        r
    }
}

} // verus!

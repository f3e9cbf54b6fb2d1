//! The named strings and paths of the hub: urls, repo ids, revisions,
//! hashes and the cache paths built from them.

use vstd::prelude::*;
use crate::cache::{Cache, PathType, Repo, RepoType};
use crate::text::{
    join_char, join_spec, lemma_replace_char_keeps_out, lemma_replace_char_removes,
    lemma_replace_str_front, lemma_replace_str_passes, lemma_replace_str_passes_other,
    lemma_split_join, lemma_split_shape, pieces_free_of, replace_char, replace_char_spec,
    replace_str, replace_str_spec, split_char, split_spec,
};

pub mod wasm;

pub use wasm::{
    DbStore, FileBlobKey, FileHashKey, FilesKey, HubKey, PathKey, RefHashKey, TmpFileBlobKey,
};


verus! {

/// Template file for creating a url.
///
/// Eg. "{endpoint}/{repo_id}/resolve/{revision}/{filename}", referring to:
/// "[Endpoint]/[RepoId]/resolve/[RevisionPath]/[FilePath]".
#[derive(Clone, Debug, PartialEq)]
pub struct HfUrlTemplate(pub String);

/// Url to a file.
///
/// Eg. "https://huggingface.co/EleutherAI/gpt-neox-20b/main/tokenizer.json".
#[derive(Clone, Debug)]
pub struct FileUrl(pub String);

/// Eg. "https://huggingface.co".
#[derive(Clone, Debug)]
pub struct Endpoint(pub String);

/// Eg. "EleutherAI/gpt-neox-20b".
#[derive(Clone, Debug)]
pub struct RepoId(pub String);

/// Eg. "models--EleutherAI--gpt-neox-20b".
#[derive(Clone, Debug)]
pub struct FolderName(pub String);

/// Eg. "main", "refs/pr/1".
#[derive(Clone, Debug)]
pub struct RevisionPath(pub String);

/// "{hash}"
#[derive(Clone, Debug, PartialEq)]
pub struct RevisionHash(pub String);

/// Eg. "tokenizer.json"
#[derive(Clone, Debug)]
pub struct FilePath(pub String);

/// "{hash}"
#[derive(Clone, Debug, PartialEq)]
pub struct BlobHash(pub String);

/// A offset part, in bytes, that the chunk refers to.
///
/// This is often used in pairs as [BlobChunkOffset]-[BlobChunkOffset] and refer to the
/// start and end offsets.
///
/// Eg. 0-1: This chunk starts from the beggining (start offset = 0) and contains a single
/// byte of data (end minus the start). If there is a next chunk to this file, it would
/// need to start at 1.
#[derive(Clone, Copy, Debug)]
pub struct BlobChunkOffset(pub usize);

/// Path to a hub, ie. "[Cache]/[FolderName]".
///
/// Eg. `"huggingface/hub/models--EleutherAI--gpt-neox-20b"`.
#[derive(Clone, Debug)]
pub struct HubPath(pub PathType);

/// Path to a hub revision, ie. "[Cache]/[FolderName]/refs/[RevisionPath]".
#[derive(Clone, Debug)]
pub struct HubRevPath(pub PathType);

/// Path to a file blob hash, ie. "[Cache]/[FolderName]/blobs/[BlobHash]".
#[derive(Clone, Debug)]
pub struct BlobHashPath(pub PathType);

/// Path to the files of a revision, ie. "[Cache]/[FolderName]/snapshots/[RevisionHash]".
#[derive(Clone, Debug)]
pub struct FilesPath(pub PathType);

impl View for HfUrlTemplate {
    type V = Seq<char>;

    open spec fn view(&self) -> Seq<char> {
        self.0@
    }
}

impl View for FileUrl {
    type V = Seq<char>;

    open spec fn view(&self) -> Seq<char> {
        self.0@
    }
}

impl View for Endpoint {
    type V = Seq<char>;

    open spec fn view(&self) -> Seq<char> {
        self.0@
    }
}

impl View for RepoId {
    type V = Seq<char>;

    open spec fn view(&self) -> Seq<char> {
        self.0@
    }
}

impl View for FolderName {
    type V = Seq<char>;

    open spec fn view(&self) -> Seq<char> {
        self.0@
    }
}

impl View for RevisionPath {
    type V = Seq<char>;

    open spec fn view(&self) -> Seq<char> {
        self.0@
    }
}

impl View for RevisionHash {
    type V = Seq<char>;

    open spec fn view(&self) -> Seq<char> {
        self.0@
    }
}

impl View for FilePath {
    type V = Seq<char>;

    open spec fn view(&self) -> Seq<char> {
        self.0@
    }
}

impl View for BlobHash {
    type V = Seq<char>;

    open spec fn view(&self) -> Seq<char> {
        self.0@
    }
}

impl View for HubPath {
    type V = Seq<Seq<char>>;

    open spec fn view(&self) -> Seq<Seq<char>> {
        self.0.deep_view()
    }
}

impl View for HubRevPath {
    type V = Seq<Seq<char>>;

    open spec fn view(&self) -> Seq<Seq<char>> {
        self.0.deep_view()
    }
}

impl View for BlobHashPath {
    type V = Seq<Seq<char>>;

    open spec fn view(&self) -> Seq<Seq<char>> {
        self.0.deep_view()
    }
}

impl View for FilesPath {
    type V = Seq<Seq<char>>;

    open spec fn view(&self) -> Seq<Seq<char>> {
        self.0.deep_view()
    }
}

// ---------------------------------------------------------------------------
// Urls
// ---------------------------------------------------------------------------

/// The url part of a repo: the id itself for models, `datasets/[RepoId]` and
/// `spaces/[RepoId]` otherwise.
pub open spec fn repo_url_spec(repo_id: Seq<char>, repo_type: RepoType) -> Seq<char> {
    match repo_type {
        RepoType::Model => repo_id,
        RepoType::Dataset => "datasets/"@ + repo_id,
        RepoType::Space => "spaces/"@ + repo_id,
    }
}

/// A revision as it stands in a url: each `/` escaped as `%2F`.
pub open spec fn revision_url_spec(revision: Seq<char>) -> Seq<char> {
    replace_char_spec(revision, '/', "%2F"@)
}

/// The template with its four placeholders filled in, one after the other.
pub open spec fn file_url_spec(
    template: Seq<char>,
    endpoint: Seq<char>,
    repo_url: Seq<char>,
    revision: Seq<char>,
    filename: Seq<char>,
) -> Seq<char> {
    replace_str_spec(
        replace_str_spec(
            replace_str_spec(
                replace_str_spec(template, "{endpoint}"@, endpoint),
                "{repo_id}"@,
                repo_url,
            ),
            "{revision}"@,
            revision_url_spec(revision),
        ),
        "{filename}"@,
        filename,
    )
}

/// The template that the hub serves files under.
pub open spec fn default_url_template_spec() -> Seq<char> {
    "{endpoint}/{repo_id}/resolve/{revision}/{filename}"@
}

/// The public hub.
pub open spec fn default_endpoint_spec() -> Seq<char> {
    "https://huggingface.co"@
}

impl Default for HfUrlTemplate {
    /// "{endpoint}/{repo_id}/resolve/{revision}/{filename}".
    fn default() -> (r: Self)
        ensures
            r@ == default_url_template_spec(),
    {
        HfUrlTemplate(String::from_str("{endpoint}/{repo_id}/resolve/{revision}/{filename}"))
    }
}

impl Default for Endpoint {
    /// "https://huggingface.co".
    fn default() -> (r: Self)
        ensures
            r@ == default_endpoint_spec(),
    {
        Endpoint(String::from_str("https://huggingface.co"))
    }
}

impl HfUrlTemplate {
    /// Get the fully qualified URL of the remote filename: each placeholder of
    /// the template replaced, in the order endpoint, repo id, revision (url
    /// escaped), filename.
    pub fn url(
        &self,
        endpoint: &Endpoint,
        repo: &Repo,
        revision: &RevisionPath,
        filename: &FilePath,
    ) -> (r: FileUrl)
        ensures
            r@ == file_url_spec(
                self@,
                endpoint@,
                repo_url_spec(repo.repo_id@, repo.repo_type),
                revision@,
                filename@,
            ),
    {
        proof {
            reveal_strlit("{endpoint}");
            reveal_strlit("{repo_id}");
            reveal_strlit("{revision}");
            reveal_strlit("{filename}");
        }
        let revision = revision.url();
        let repo_url = repo.url();
        let a = replace_str(self.0.as_str(), "{endpoint}", endpoint.0.as_str());
        let b = replace_str(a.as_str(), "{repo_id}", repo_url.as_str());
        let c = replace_str(b.as_str(), "{revision}", revision.as_str());
        let d = replace_str(c.as_str(), "{filename}", filename.0.as_str());
        FileUrl(d)
    }
}

impl RepoId {
    /// The actual URL part of the repo.
    ///
    /// - Models: "[RepoId]"
    /// - Datasets: "datasets/[RepoId]"
    /// - Spaces: "spaces/[RepoId]"
    pub fn url(&self, repo_type: &RepoType) -> (r: String)
        ensures
            r@ == repo_url_spec(self@, *repo_type),
    {
        match repo_type {
            RepoType::Model => self.0.clone(),
            RepoType::Dataset => {
                let mut r = String::from_str("datasets/");
                r.append(self.0.as_str());
                r
            },
            RepoType::Space => {
                let mut r = String::from_str("spaces/");
                r.append(self.0.as_str());
                r
            },
        }
    }
}

/// An escaped revision holds no `/`, so it stands in a url as one segment.
pub proof fn lemma_revision_url_has_no_slash(revision: Seq<char>)
    ensures
        !revision_url_spec(revision).contains('/'),
{
    reveal_strlit("%2F");
    assert(!"%2F"@.contains('/')) by {
        if "%2F"@.contains('/') {
            let k = choose|k: int| 0 <= k < "%2F"@.len() && "%2F"@[k] == '/';
        }
    }
    lemma_replace_char_removes(revision, '/', "%2F"@);
}

/// Text with no `{` in it, which no placeholder can start in.
proof fn lemma_no_brace(x: Seq<char>)
    requires
        forall|k: int| 0 <= k < x.len() ==> x[k] != '{',
    ensures
        !x.contains('{'),
{
}

/// With the default template, the url of a file is the endpoint, `/`, the
/// repo's url part, "/resolve/", the revision with each `/` escaped as
/// "%2F", `/` and the filename, each put in character for character, for
/// every endpoint, repo url part, revision and filename that hold no `{`
/// (and so no placeholder).
pub proof fn lemma_default_url_layout(
    endpoint: Seq<char>,
    repo_url: Seq<char>,
    revision: Seq<char>,
    filename: Seq<char>,
)
    requires
        !endpoint.contains('{'),
        !repo_url.contains('{'),
        !revision.contains('{'),
        !filename.contains('{'),
    ensures
        file_url_spec(default_url_template_spec(), endpoint, repo_url, revision, filename)
            == endpoint + "/"@ + repo_url + "/resolve/"@ + replace_char_spec(
            revision,
            '/',
            "%2F"@,
        ) + "/"@ + filename,
{
    reveal_strlit("{endpoint}/{repo_id}/resolve/{revision}/{filename}");
    reveal_strlit("{endpoint}");
    reveal_strlit("{repo_id}");
    reveal_strlit("{revision}");
    reveal_strlit("{filename}");
    reveal_strlit("/");
    reveal_strlit("/resolve/");
    reveal_strlit("%2F");
    let p1 = "{endpoint}"@;
    let p2 = "{repo_id}"@;
    let p3 = "{revision}"@;
    let p4 = "{filename}"@;
    let s1 = "/"@;
    let s2 = "/resolve/"@;
    let e = endpoint;
    let ru = repo_url;
    let f = filename;
    let v = revision_url_spec(revision);
    let none = Seq::<char>::empty();
    assert(p1 =~= seq!['{', 'e', 'n', 'd', 'p', 'o', 'i', 'n', 't', '}']);
    assert(p2 =~= seq!['{', 'r', 'e', 'p', 'o', '_', 'i', 'd', '}']);
    assert(p3 =~= seq!['{', 'r', 'e', 'v', 'i', 's', 'i', 'o', 'n', '}']);
    assert(p4 =~= seq!['{', 'f', 'i', 'l', 'e', 'n', 'a', 'm', 'e', '}']);
    assert(s1 =~= seq!['/']);
    assert(s2 =~= seq!['/', 'r', 'e', 's', 'o', 'l', 'v', 'e', '/']);
    assert("%2F"@ =~= seq!['%', '2', 'F']);
    lemma_no_brace(s1);
    lemma_no_brace(s2);
    lemma_no_brace(p1.skip(1));
    lemma_no_brace(p2.skip(1));
    lemma_no_brace(p3.skip(1));
    lemma_no_brace(p4.skip(1));
    lemma_no_brace("%2F"@);
    lemma_replace_char_keeps_out(revision, '/', "%2F"@, '{');

    // the template, piece by piece
    let t7 = p4 + none;
    let t6 = s1 + t7;
    let t5 = p3 + t6;
    let t4 = s2 + t5;
    let t3 = p2 + t4;
    let t2 = s1 + t3;
    assert(default_url_template_spec() =~= p1 + t2);
    assert(t7 =~= p4);

    // "{endpoint}": found at the front only
    lemma_replace_str_passes_other(p4, none, p1, e, 1);
    lemma_replace_str_passes(s1, t7, p1, e);
    lemma_replace_str_passes_other(p3, t6, p1, e, 1);
    lemma_replace_str_passes(s2, t5, p1, e);
    lemma_replace_str_passes_other(p2, t4, p1, e, 1);
    lemma_replace_str_passes(s1, t3, p1, e);
    lemma_replace_str_front(t2, p1, e);
    let r1 = replace_str_spec(default_url_template_spec(), p1, e);
    assert(r1 == e + t2);

    // "{repo_id}"
    lemma_replace_str_passes_other(p4, none, p2, ru, 1);
    lemma_replace_str_passes(s1, t7, p2, ru);
    lemma_replace_str_passes_other(p3, t6, p2, ru, 3);
    lemma_replace_str_passes(s2, t5, p2, ru);
    lemma_replace_str_front(t4, p2, ru);
    lemma_replace_str_passes(s1, t3, p2, ru);
    lemma_replace_str_passes(e, t2, p2, ru);
    let r2 = replace_str_spec(r1, p2, ru);
    assert(r2 == e + (s1 + (ru + t4)));

    // "{revision}"
    lemma_replace_str_passes_other(p4, none, p3, v, 1);
    lemma_replace_str_passes(s1, t7, p3, v);
    lemma_replace_str_front(t6, p3, v);
    lemma_replace_str_passes(s2, t5, p3, v);
    lemma_replace_str_passes(ru, t4, p3, v);
    lemma_replace_str_passes(s1, ru + t4, p3, v);
    lemma_replace_str_passes(e, s1 + (ru + t4), p3, v);
    let r3 = replace_str_spec(r2, p3, v);
    let u6 = s2 + (v + t6);
    assert(r3 == e + (s1 + (ru + u6)));

    // "{filename}"
    lemma_replace_str_front(none, p4, f);
    lemma_replace_str_passes(s1, t7, p4, f);
    lemma_replace_str_passes(v, t6, p4, f);
    lemma_replace_str_passes(s2, v + t6, p4, f);
    lemma_replace_str_passes(ru, u6, p4, f);
    lemma_replace_str_passes(s1, ru + u6, p4, f);
    lemma_replace_str_passes(e, s1 + (ru + u6), p4, f);
    let r4 = replace_str_spec(r3, p4, f);
    assert(r4 == e + (s1 + (ru + (s2 + (v + (s1 + (f + none)))))));
    assert(r4 =~= e + s1 + ru + s2 + v + s1 + f);
}

impl RevisionPath {
    /// [RevisionPath] needs to be url escaped before being used in a URL.
    ///
    /// Eg. "main", "refs%2Fpr%2F1".
    pub fn url(&self) -> (r: String)
        ensures
            r@ == revision_url_spec(self@),
    {
        replace_char(self.0.as_str(), '/', "%2F")
    }
}

// ---------------------------------------------------------------------------
// Paths
// ---------------------------------------------------------------------------

/// The first `n` components of `p`.
pub(crate) fn path_prefix(p: &PathType, n: usize) -> (r: PathType)
    requires
        n <= p.len(),
    ensures
        r.deep_view() == p.deep_view().take(n as int),
{
    let mut r: PathType = Vec::new();
    let mut i: usize = 0;
    while i < n
        invariant
            i <= n <= p.len(),
            r.deep_view() == p.deep_view().take(i as int),
        decreases n - i,
    {
        let ghost before = r.deep_view();
        let c = p[i].clone();
        assert(c@ == p.deep_view()[i as int]);
        r.push(c);
        assert(r.deep_view() =~= before.push(c@));
        assert(r.deep_view() =~= p.deep_view().take(i + 1));
        i = i + 1;
    }
    r
}

/// The components of a hub path read from a string split on `/`: the last
/// piece is the folder name, the pieces before it the cache path, where an
/// empty cache path reads as the single empty component.
pub open spec fn hub_path_parts(parts: Seq<Seq<char>>) -> Seq<Seq<char>> {
    if parts.len() <= 1 {
        seq![Seq::<char>::empty()] + parts
    } else {
        parts
    }
}

/// The components that `HubPath::from_str` reads from `s`.
pub open spec fn hub_path_from_str_spec(s: Seq<char>) -> Seq<Seq<char>> {
    hub_path_parts(split_spec(s, '/'))
}

impl HubPath {
    /// Reads "[Cache]/[FolderName]": the pieces of `s` between `/`, where a
    /// string without `/` is a folder name under the empty cache path.
    /// Never fails.
    pub fn from_str(s: &str) -> (r: Result<Self, ()>)
        ensures
            r matches Ok(h) && h@ == hub_path_from_str_spec(s@),
    {
        let split = split_char(s, '/');
        proof {
            lemma_split_shape(s@, '/');
        }
        let len = split.len();
        let cache_parts = path_prefix(&split, len - 1);
        let joined = join_char(&cache_parts, '/');
        let mut hub_path = match Cache::from_str(joined.as_str()) {
            Ok(cache) => cache.path,
            Err(e) => return Err(e),
        };
        let ghost cp = hub_path.deep_view();
        proof {
            let pre = split.deep_view().take(len - 1);
            if len - 1 >= 1 {
                assert(pieces_free_of(pre, '/')) by {
                    assert forall|i: int| 0 <= i < pre.len() implies !(#[trigger] pre[i]).contains('/') by {
                        assert(pre[i] == split_spec(s@, '/')[i]);
                    }
                }
                lemma_split_join(pre, '/');
            } else {
                assert(pre =~= Seq::<Seq<char>>::empty());
                assert(joined@ =~= Seq::<char>::empty());
            }
        }
        let folder = split[len - 1].clone();
        hub_path.push(folder);
        proof {
            let parts = split_spec(s@, '/');
            assert(cp == (if len >= 2 { parts.take(len - 1) } else { seq![Seq::<char>::empty()] }));
            assert(folder@ == parts[len - 1]);
            assert(hub_path.deep_view() =~= cp.push(parts[len - 1]));
            if len >= 2 {
                assert(parts.take(len - 1).push(parts[len - 1]) =~= parts);
            } else {
                assert(seq![Seq::<char>::empty()].push(parts[0]) =~= seq![Seq::<char>::empty()]
                    + parts);
            }
        }
        Ok(HubPath(hub_path))
    }
}

/// A hub path of at least two components, none holding a `/`, joined with
/// `/` as the browser store keeps it, reads back as the same path.
pub proof fn lemma_hub_path_reads_back(hub: Seq<Seq<char>>)
    requires
        hub.len() >= 2,
        pieces_free_of(hub, '/'),
    ensures
        hub_path_from_str_spec(join_spec(hub, '/')) == hub,
{
    lemma_split_join(hub, '/');
}

impl std::str::FromStr for HubPath {
    type Err = ();

    /// Reads "[Cache]/[FolderName]", as [HubPath::from_str] does.  Never
    /// fails.
    fn from_str(s: &str) -> (r: Result<Self, Self::Err>)
        ensures
            r matches Ok(h) && h@ == hub_path_from_str_spec(s@),
    {
        HubPath::from_str(s)
    }
}

} // verus!

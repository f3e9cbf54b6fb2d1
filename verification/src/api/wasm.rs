//! What the browser client decides between its requests: urls, metadata
//! from response headers, and the chunks in which a file is fetched and kept.

use vstd::prelude::*;
use crate::cache::{Cache, Repo, default_cache_spec};
use crate::text::{
    decimal, decimal_spec, lemma_decimal_len_at_most, lemma_padded_order, lemma_split_shape,
    lex_lt, parse_usize, parse_usize_spec, replace_char, replace_char_spec, split_char,
    split_spec,
};
use crate::types::wasm::{
    chunk_end_spec, chunk_key_parses, chunk_name_spec, chunk_start_spec,
    lemma_chunk_key_splits_back, lemma_chunk_names_order, lemma_chunk_names_within,
    TmpFileBlobKey,
};
use crate::types::{
    default_endpoint_spec, default_url_template_spec, file_url_spec, path_prefix, repo_url_spec,
    BlobChunkOffset, BlobHash, BlobHashPath, Endpoint, FilePath, FileUrl, HfUrlTemplate,
    RevisionHash, RevisionPath,
};

verus! {

/// A template for the url of a file.
#[derive(Clone, Debug, PartialEq)]
pub enum UrlTemplate {
    /// A template with the placeholders `{endpoint}`, `{repo_id}`,
    /// `{revision}` and `{filename}`.
    Hf(HfUrlTemplate),
    /// A template of another form, which cannot be filled in yet.
    Custom(String),
}

/// The text of a template.
pub open spec fn url_template_text(t: UrlTemplate) -> Seq<char> {
    match t {
        UrlTemplate::Hf(template) => template@,
        UrlTemplate::Custom(template) => template@,
    }
}

impl Default for UrlTemplate {
    /// [HfUrlTemplate] as "{endpoint}/{repo_id}/resolve/{revision}/{filename}".
    fn default() -> (r: Self)
        ensures
            r is Hf,
            url_template_text(r) == default_url_template_spec(),
    {
        Self::Hf(HfUrlTemplate::default())
    }
}

impl UrlTemplate {
    /// The text of the template.
    pub fn as_str(&self) -> (r: &str)
        ensures
            r@ == url_template_text(*self),
    {
        match self {
            UrlTemplate::Hf(template) => template.0.as_str(),
            UrlTemplate::Custom(template) => template.as_str(),
        }
    }

    /// The url of `filename` in `repo` at `revision`: the placeholders of the
    /// template filled in.  Only [UrlTemplate::Hf] templates can be filled in.
    pub fn url(
        &self,
        endpoint: &Endpoint,
        repo: &Repo,
        revision: &RevisionPath,
        filename: &FilePath,
    ) -> (r: FileUrl)
        requires
            *self is Hf,
        ensures
            r@ == file_url_spec(
                url_template_text(*self),
                endpoint@,
                repo_url_spec(repo.repo_id@, repo.repo_type),
                revision@,
                filename@,
            ),
    {
        match self {
            UrlTemplate::Hf(template) => template.url(endpoint, repo, revision, filename),
            UrlTemplate::Custom(_template) => {
                assert(false);
                FileUrl(String::new())
            },
        }
    }
}

/// Helper to create an `Api` with all the options.
#[derive(Debug)]
pub struct ApiBuilder {
    /// The hub to talk to.
    pub endpoint: Endpoint,
    /// Where files are kept.
    pub cache: Cache,
    /// How file urls are formed.
    pub url_template: UrlTemplate,
    /// How many files may be fetched at once.
    pub max_files: usize,
    /// Size, in bytes, for each download chunk.
    pub chunk_size: usize,
    /// How many failed chunks are tolerated at once.
    pub parallel_failures: usize,
    /// How many times a chunk is tried again.
    pub max_retries: usize,
    /// Whether to show a progressbar.
    pub progress: bool,
}

/// The size of a download chunk that a new builder sets: 10 MiB.
pub open spec fn default_chunk_size() -> usize {
    10485760
}

impl Default for ApiBuilder {
    /// The same as [ApiBuilder::new].
    fn default() -> (r: Self)
        ensures
            r.endpoint@ == default_endpoint_spec(),
            r.cache@ == default_cache_spec(),
            r.url_template is Hf,
            url_template_text(r.url_template) == default_url_template_spec(),
            r.max_files == 1,
            r.chunk_size == default_chunk_size(),
            r.parallel_failures == 0,
            r.max_retries == 0,
            r.progress,
    {
        Self::new()
    }
}

impl ApiBuilder {
    /// Default api builder: the default cache, endpoint and url template.
    pub fn new() -> (r: Self)
        ensures
            r.endpoint@ == default_endpoint_spec(),
            r.cache@ == default_cache_spec(),
            r.url_template is Hf,
            url_template_text(r.url_template) == default_url_template_spec(),
            r.max_files == 1,
            r.chunk_size == default_chunk_size(),
            r.parallel_failures == 0,
            r.max_retries == 0,
            r.progress,
    {
        let cache = Cache::default();
        Self::with(cache, Endpoint::default(), UrlTemplate::default())
    }

    /// A builder with the given cache, endpoint and url template, one file at
    /// a time, chunks of 10 MiB, no retries, and a progressbar.
    pub fn with(cache: Cache, endpoint: Endpoint, url_template: UrlTemplate) -> (r: Self)
        ensures
            r.endpoint == endpoint,
            r.cache == cache,
            r.url_template == url_template,
            r.max_files == 1,
            r.chunk_size == default_chunk_size(),
            r.parallel_failures == 0,
            r.max_retries == 0,
            r.progress,
    {
        let progress = true;
        Self {
            endpoint,
            url_template,
            cache,
            max_files: 1,
            // 10MB
            chunk_size: 10 * 1024 * 1024,
            parallel_failures: 0,
            max_retries: 0,
            progress,
        }
    }

    /// Wether to show a progressbar
    pub fn with_progress(self, progress: bool) -> (r: Self)
        ensures
            r.progress == progress,
            r.endpoint == self.endpoint,
            r.cache == self.cache,
            r.url_template == self.url_template,
            r.max_files == self.max_files,
            r.chunk_size == self.chunk_size,
            r.parallel_failures == self.parallel_failures,
            r.max_retries == self.max_retries,
    {
        let mut s = self;
        s.progress = progress;
        s
    }

    /// Changes the location of the cache directory.
    pub fn with_cache_dir(self, cache_dir: Cache) -> (r: Self)
        ensures
            r.cache == cache_dir,
            r.endpoint == self.endpoint,
            r.url_template == self.url_template,
            r.max_files == self.max_files,
            r.chunk_size == self.chunk_size,
            r.parallel_failures == self.parallel_failures,
            r.max_retries == self.max_retries,
            r.progress == self.progress,
    {
        let mut s = self;
        s.cache = cache_dir;
        s
    }
}

/// What the hub tells of a file.
#[derive(Clone, Debug, PartialEq)]
pub struct Metadata {
    /// The commit the file was served from (empty when the hub did not say).
    pub commit_hash: RevisionHash,
    /// The hash of the file's contents, without quotes.
    pub etag: BlobHash,
    /// The size of the file, in bytes.
    pub size: usize,
}

/// The size that a `Content-Range` value states: the piece after its last `/`.
pub open spec fn content_range_size(content_range: Seq<char>) -> Option<usize> {
    parse_usize_spec(split_spec(content_range, '/').last())
}

impl Metadata {
    /// Reads the metadata of a file from the headers of a response to a
    /// request for its first byte: the etag from `X-Linked-Etag`, else from
    /// `ETag`, with its quotes removed; the commit from `X-Repo-Commit`, empty
    /// when missing; the size from what follows the last `/` of
    /// `Content-Range`.
    pub fn from_headers(
        linked_etag: Option<&str>,
        etag: Option<&str>,
        repo_commit: Option<&str>,
        content_range: Option<&str>,
    ) -> (r: Metadata)
        requires
            linked_etag is Some || etag is Some,
            content_range matches Some(cr) && content_range_size(cr@) is Some,
        ensures
            r.etag@ == replace_char_spec(
                match linked_etag {
                    Some(e) => e@,
                    None => etag->0@,
                },
                '"',
                Seq::<char>::empty(),
            ),
            r.commit_hash@ == match repo_commit {
                Some(c) => c@,
                None => Seq::<char>::empty(),
            },
            r.size == content_range_size(content_range->0@)->0,
    {
        let chosen = match linked_etag {
            Some(e) => e,
            None => etag.unwrap(),
        };
        proof {
            reveal_strlit("");
            assert(""@ =~= Seq::<char>::empty());
        }
        // cleaning extra quotes
        let etag = replace_char(chosen, '"', "");
        let commit_hash = match repo_commit {
            Some(c) => String::from_str(c),
            None => String::new(),
        };
        let cr = content_range.unwrap();
        let pieces = split_char(cr, '/');
        proof {
            lemma_split_shape(cr@, '/');
        }
        let size = parse_usize(pieces[pieces.len() - 1].as_str()).unwrap();
        Metadata { commit_hash: RevisionHash(commit_hash), etag: BlobHash(etag), size }
    }
}

/// The value of a `Range` header for the bytes `start` to `end`, both
/// included: "bytes=[start]-[end]".
pub open spec fn range_header_spec(start: nat, end: nat) -> Seq<char> {
    "bytes="@ + decimal_spec(start) + seq!['-'] + decimal_spec(end)
}

/// The value of a `Range` header for the bytes `start` to `end`, both
/// included.
pub fn range_header(start: usize, end: usize) -> (r: String)
    ensures
        r@ == range_header_spec(start as nat, end as nat),
{
    let mut r = String::from_str("bytes=");
    let s = decimal(start);
    r.append(s.as_str());
    r.push('-');
    let e = decimal(end);
    r.append(e.as_str());
    assert(r@ =~= range_header_spec(start as nat, end as nat));
    r
}

// ---------------------------------------------------------------------------
// Planning the chunks of a file
// ---------------------------------------------------------------------------

/// The chunks of a file, in order: each one either a chunk already kept in
/// the browser store (`Ok`) or one still to be downloaded (`Err`).
pub type TmpFileBlobKeyList = Vec<Result<TmpFileBlobKey, TmpFileBlobKey>>;

/// One step of fetching a file.
pub enum ChunkStep {
    /// Keep the cached chunk at `index` of the cached chunk keys.
    Cached { index: int },
    /// Download the bytes `start..end`.
    Download { start: int, end: int },
}

/// The offsets that a chunk key states, when it splits.
pub open spec fn key_offsets(key: Seq<Seq<char>>) -> Option<(int, int)> {
    if chunk_key_parses(key) {
        Some((key_start(key), key_end(key)))
    } else {
        None
    }
}

/// The smaller of two numbers.
pub open spec fn min_int(a: int, b: int) -> int {
    if a <= b {
        a
    } else {
        b
    }
}

/// The steps that fetch the bytes from `pos` on of a file of `size` bytes,
/// when the cached chunks from index `i` on are still to be met: chunks of
/// at most `chunk_size` bytes are downloaded up to the start of the next
/// cached chunk, which is kept when the position reaches its start, and the
/// position then moves to its end.  `None` where fetching would never end
/// (a download of nothing), where the next cached chunk starts before the
/// position, or where its key does not split.
pub open spec fn plan_steps(
    pos: int,
    i: int,
    size: int,
    chunk_size: int,
    keys: Seq<Seq<Seq<char>>>,
) -> Option<Seq<ChunkStep>>
    decreases keys.len() - i, size - pos,
{
    if pos >= size {
        Some(Seq::<ChunkStep>::empty())
    } else if i < 0 || i > keys.len() {
        None
    } else {
        let end = min_int(pos + chunk_size, size);
        if i < keys.len() {
            match key_offsets(keys[i]) {
                None => None,
                Some(offsets) => {
                    if pos < offsets.0 {
                        let e = min_int(end, offsets.0);
                        if e <= pos {
                            None
                        } else {
                            match plan_steps(e, i, size, chunk_size, keys) {
                                Some(rest) => Some(seq![ChunkStep::Download { start: pos, end: e }] + rest),
                                None => None,
                            }
                        }
                    } else if pos == offsets.0 {
                        match plan_steps(offsets.1, i + 1, size, chunk_size, keys) {
                            Some(rest) => Some(seq![ChunkStep::Cached { index: i }] + rest),
                            None => None,
                        }
                    } else {
                        None
                    }
                },
            }
        } else if end <= pos {
            None
        } else {
            match plan_steps(end, i, size, chunk_size, keys) {
                Some(rest) => Some(seq![ChunkStep::Download { start: pos, end: end }] + rest),
                None => None,
            }
        }
    }
}

/// The bytes that a step covers.
pub open spec fn step_range(step: ChunkStep, keys: Seq<Seq<Seq<char>>>) -> (int, int) {
    match step {
        ChunkStep::Cached { index } => key_offsets(keys[index])->0,
        ChunkStep::Download { start, end } => (start, end),
    }
}

/// The indices of the cached chunks that steps keep, in order.
pub open spec fn cached_indices(steps: Seq<ChunkStep>) -> Seq<int>
    decreases steps.len(),
{
    if steps.len() == 0 {
        Seq::<int>::empty()
    } else {
        (match steps[0] {
            ChunkStep::Cached { index } => seq![index],
            ChunkStep::Download { .. } => Seq::<int>::empty(),
        }) + cached_indices(steps.skip(1))
    }
}

/// Steps tile the bytes from `pos` to (at least) `size`: they start at
/// `pos`, each starts where the one before it ends, and the last ends at or
/// after `size`; there are none when `pos` is already at or after `size`.
pub open spec fn steps_tile(steps: Seq<ChunkStep>, keys: Seq<Seq<Seq<char>>>, pos: int, size: int) -> bool {
    &&& (steps.len() == 0 <==> pos >= size)
    &&& steps.len() > 0 ==> step_range(steps[0], keys).0 == pos
    &&& steps.len() > 0 ==> step_range(steps.last(), keys).1 >= size
    &&& forall|j: int|
        0 <= j < steps.len() - 1 ==> step_range(#[trigger] steps[j], keys).1 == step_range(
            steps[j + 1],
            keys,
        ).0
}

/// Every download step fetches between one byte and `chunk_size` bytes,
/// within the file.
pub open spec fn downloads_bounded(steps: Seq<ChunkStep>, size: int, chunk_size: int) -> bool {
    forall|j: int|
        0 <= j < steps.len() ==> match #[trigger] steps[j] {
            ChunkStep::Download { start, end } => start < end <= size && end - start
                <= chunk_size,
            ChunkStep::Cached { .. } => true,
        }
}

/// The fetching steps of a file leave no gap: they tile the file from the
/// position they start at to (at least) its end, each download takes
/// between one byte and `chunk_size` bytes within the file, and the cached
/// chunks kept are the first ones of the cached keys, in their order.
pub proof fn lemma_plan_tiles(pos: int, i: int, size: int, chunk_size: int, keys: Seq<Seq<Seq<char>>>)
    requires
        plan_steps(pos, i, size, chunk_size, keys) is Some,
        0 <= i <= keys.len(),
    ensures
        ({
            let steps = plan_steps(pos, i, size, chunk_size, keys)->0;
            &&& steps_tile(steps, keys, pos, size)
            &&& downloads_bounded(steps, size, chunk_size)
            &&& i + cached_indices(steps).len() <= keys.len()
            &&& cached_indices(steps) == Seq::new(cached_indices(steps).len(), |t: int| i + t)
        }),
    decreases keys.len() - i, size - pos,
{
    let steps = plan_steps(pos, i, size, chunk_size, keys)->0;
    if pos >= size {
        assert(cached_indices(steps) =~= Seq::new(0, |t: int| i + t));
    } else {
        let end = min_int(pos + chunk_size, size);
        if i < keys.len() {
            let offsets = key_offsets(keys[i])->0;
            if pos < offsets.0 {
                let e = min_int(end, offsets.0);
                lemma_plan_tiles(e, i, size, chunk_size, keys);
                let rest = plan_steps(e, i, size, chunk_size, keys)->0;
                let first = ChunkStep::Download { start: pos, end: e };
                lemma_prepend_step(first, rest, keys, pos, e, size, chunk_size);
                assert(cached_indices(steps) =~= cached_indices(rest)) by {
                    assert(steps.skip(1) =~= rest);
                }
            } else {
                lemma_plan_tiles(offsets.1, i + 1, size, chunk_size, keys);
                let rest = plan_steps(offsets.1, i + 1, size, chunk_size, keys)->0;
                let first = ChunkStep::Cached { index: i };
                lemma_prepend_step(first, rest, keys, pos, offsets.1, size, chunk_size);
                assert(steps.skip(1) =~= rest);
                let k = cached_indices(rest).len();
                assert(cached_indices(steps) =~= Seq::new(k + 1, |t: int| i + t));
            }
        } else {
            lemma_plan_tiles(end, i, size, chunk_size, keys);
            let rest = plan_steps(end, i, size, chunk_size, keys)->0;
            let first = ChunkStep::Download { start: pos, end: end };
            lemma_prepend_step(first, rest, keys, pos, end, size, chunk_size);
            assert(cached_indices(steps) =~= cached_indices(rest)) by {
                assert(steps.skip(1) =~= rest);
            }
        }
    }
}

/// The start offset that a chunk key states.
pub open spec fn key_start(key: Seq<Seq<char>>) -> int {
    chunk_start_spec(key.last()) as int
}

/// The end offset that a chunk key states.
pub open spec fn key_end(key: Seq<Seq<char>>) -> int {
    chunk_end_spec(key.last()) as int
}

/// Cached chunks in order of their bytes and apart from each other: every
/// key splits, each chunk ends no earlier than it starts, and the next one
/// starts no earlier than it ends.
pub open spec fn cached_in_order(keys: Seq<Seq<Seq<char>>>) -> bool {
    &&& forall|j: int| 0 <= j < keys.len() ==> chunk_key_parses(#[trigger] keys[j])
    &&& forall|j: int| 0 <= j < keys.len() ==> key_start(#[trigger] keys[j]) <= key_end(keys[j])
    &&& forall|j: int|
        0 <= j < keys.len() - 1 ==> key_end(#[trigger] keys[j]) <= key_start(keys[j + 1])
}

/// A file whose cached chunks are in order and apart can always be planned
/// with chunks of at least one byte: no cached chunk starts before the
/// position reached, and no download is of nothing.
pub proof fn lemma_plan_defined(pos: int, i: int, size: int, chunk_size: int, keys: Seq<Seq<Seq<char>>>)
    requires
        cached_in_order(keys),
        chunk_size > 0,
        0 <= i <= keys.len(),
        i < keys.len() ==> pos <= key_start(keys[i]),
    ensures
        plan_steps(pos, i, size, chunk_size, keys) is Some,
    decreases keys.len() - i, size - pos,
{
    if pos < size {
        let end = min_int(pos + chunk_size, size);
        if i < keys.len() {
            assert(chunk_key_parses(keys[i]));
            assert(key_start(keys[i]) <= key_end(keys[i]));
            if pos < key_start(keys[i]) {
                let e = min_int(end, key_start(keys[i]));
                lemma_plan_defined(e, i, size, chunk_size, keys);
            } else {
                if i + 1 < keys.len() {
                    assert(key_end(keys[i]) <= key_start(keys[i + 1]));
                }
                lemma_plan_defined(key_end(keys[i]), i + 1, size, chunk_size, keys);
            }
        } else {
            lemma_plan_defined(end, i, size, chunk_size, keys);
        }
    }
}

/// Past the cached chunks (none, or all met), a file is downloaded in chunks
/// of exactly `chunk_size` bytes each, the last one shorter when the size
/// calls for it, and the last ends exactly at the end of the file.
pub proof fn lemma_plan_full_chunks(pos: int, size: int, chunk_size: int, keys: Seq<Seq<Seq<char>>>)
    requires
        plan_steps(pos, keys.len() as int, size, chunk_size, keys) is Some,
    ensures
        ({
            let steps = plan_steps(pos, keys.len() as int, size, chunk_size, keys)->0;
            &&& forall|j: int| 0 <= j < steps.len() ==> (#[trigger] steps[j]) is Download
            &&& forall|j: int|
                0 <= j < steps.len() - 1 ==> step_range(#[trigger] steps[j], keys).1 - step_range(
                    steps[j],
                    keys,
                ).0 == chunk_size
            &&& steps.len() > 0 ==> step_range(steps.last(), keys).1 == size
        }),
    decreases size - pos,
{
    if pos < size {
        let end = min_int(pos + chunk_size, size);
        lemma_plan_full_chunks(end, size, chunk_size, keys);
        let rest = plan_steps(end, keys.len() as int, size, chunk_size, keys)->0;
        let first = ChunkStep::Download { start: pos, end: end };
        let steps = seq![first] + rest;
        assert(steps == plan_steps(pos, keys.len() as int, size, chunk_size, keys)->0);
        assert forall|j: int| 0 <= j < steps.len() implies (#[trigger] steps[j]) is Download by {
            if j > 0 {
                assert(steps[j] == rest[j - 1]);
            }
        }
        assert forall|j: int| 0 <= j < steps.len() - 1 implies step_range(#[trigger] steps[j], keys).1
            - step_range(steps[j], keys).0 == chunk_size by {
            if j > 0 {
                assert(steps[j] == rest[j - 1]);
            } else {
                assert(rest.len() > 0);
                assert(end < size);
            }
        }
        if rest.len() > 0 {
            assert(steps.last() == rest.last());
        }
    }
}

/// Putting a step from `pos` to `next` in front of steps that tile from
/// `next` gives steps that tile from `pos`.
proof fn lemma_prepend_step(
    first: ChunkStep,
    rest: Seq<ChunkStep>,
    keys: Seq<Seq<Seq<char>>>,
    pos: int,
    next: int,
    size: int,
    chunk_size: int,
)
    requires
        pos < size,
        step_range(first, keys) == (pos, next),
        steps_tile(rest, keys, next, size),
        downloads_bounded(rest, size, chunk_size),
        first matches ChunkStep::Download { start, end } ==> start < end <= size && end - start
            <= chunk_size,
    ensures
        steps_tile(seq![first] + rest, keys, pos, size),
        downloads_bounded(seq![first] + rest, size, chunk_size),
{
    let steps = seq![first] + rest;
    assert(steps[0] == first);
    if rest.len() > 0 {
        assert(steps.last() == rest.last());
    }
    assert forall|j: int| 0 <= j < steps.len() - 1 implies step_range(#[trigger] steps[j], keys).1
        == step_range(steps[j + 1], keys).0 by {
        if j > 0 {
            assert(steps[j] == rest[j - 1]);
            assert(steps[j + 1] == rest[j]);
        } else {
            assert(steps[1] == rest[0]);
        }
    }
    assert forall|j: int| 0 <= j < steps.len() implies match #[trigger] steps[j] {
        ChunkStep::Download { start, end } => start < end <= size && end - start <= chunk_size,
        ChunkStep::Cached { .. } => true,
    } by {
        if j > 0 {
            assert(steps[j] == rest[j - 1]);
        }
    }
}

/// The steps planned for a whole file leave no gap: they tile it from its
/// first byte to (at least) its end, each download takes between one byte
/// and `chunk_size` bytes within the file, and the cached chunks kept are the
/// first ones of the cached keys, in their order.
pub open spec fn plan_covers_file(
    steps: Seq<ChunkStep>,
    keys: Seq<Seq<Seq<char>>>,
    size: int,
    chunk_size: int,
) -> bool {
    &&& steps_tile(steps, keys, 0, size)
    &&& downloads_bounded(steps, size, chunk_size)
    &&& cached_indices(steps).len() <= keys.len()
    &&& cached_indices(steps) == Seq::new(cached_indices(steps).len(), |t: int| t)
}

/// The chunk key of a step: the cached key itself, or the key of the
/// chunk to download under `blob`.
pub open spec fn step_key(
    step: ChunkStep,
    blob: Seq<Seq<char>>,
    keys: Seq<Seq<Seq<char>>>,
    size: int,
) -> Result<Seq<Seq<char>>, Seq<Seq<char>>> {
    match step {
        ChunkStep::Cached { index } => Ok(keys[index]),
        ChunkStep::Download { start, end } => Err(
            blob.push(chunk_name_spec(start as nat, end as nat, size as nat)),
        ),
    }
}

/// The chunk keys of steps.
pub open spec fn plan_keys(
    steps: Seq<ChunkStep>,
    blob: Seq<Seq<char>>,
    keys: Seq<Seq<Seq<char>>>,
    size: int,
) -> Seq<Result<Seq<Seq<char>>, Seq<Seq<char>>>> {
    steps.map_values(|step: ChunkStep| step_key(step, blob, keys, size))
}

/// Downloads planned from a position within the file start within it too,
/// and every cached chunk kept is one of the cached keys from index `i` on.
proof fn lemma_plan_steps_within(pos: int, i: int, size: int, chunk_size: int, keys: Seq<Seq<Seq<char>>>)
    requires
        plan_steps(pos, i, size, chunk_size, keys) is Some,
        0 <= pos,
        0 <= i,
    ensures
        ({
            let steps = plan_steps(pos, i, size, chunk_size, keys)->0;
            forall|j: int|
                0 <= j < steps.len() ==> match #[trigger] steps[j] {
                    ChunkStep::Download { start, end } => 0 <= start,
                    ChunkStep::Cached { index } => i <= index < keys.len(),
                }
        }),
    decreases keys.len() - i, size - pos,
{
    let steps = plan_steps(pos, i, size, chunk_size, keys)->0;
    if pos < size {
        let end = min_int(pos + chunk_size, size);
        let next: int;
        let first: ChunkStep;
        if i < keys.len() {
            let offsets = key_offsets(keys[i])->0;
            if pos < offsets.0 {
                next = min_int(end, offsets.0);
                first = ChunkStep::Download { start: pos, end: next };
                lemma_plan_steps_within(next, i, size, chunk_size, keys);
                assert(steps == seq![first] + plan_steps(next, i, size, chunk_size, keys)->0);
            } else {
                next = offsets.1;
                first = ChunkStep::Cached { index: i };
                lemma_plan_steps_within(next, i + 1, size, chunk_size, keys);
                assert(steps == seq![first] + plan_steps(next, i + 1, size, chunk_size, keys)->0);
            }
        } else {
            next = end;
            first = ChunkStep::Download { start: pos, end: next };
            lemma_plan_steps_within(next, i, size, chunk_size, keys);
            assert(steps == seq![first] + plan_steps(next, i, size, chunk_size, keys)->0);
        }
        assert forall|j: int| 0 <= j < steps.len() implies match #[trigger] steps[j] {
            ChunkStep::Download { start, end } => 0 <= start,
            ChunkStep::Cached { index } => i <= index < keys.len(),
        } by {
            if j > 0 {
                assert(steps[j] == steps.skip(1)[j - 1]);
            }
        }
    }
}

/// Along steps that tile the file, with cached chunks in order, no step
/// starts before an earlier one ends.
proof fn lemma_steps_advance(
    steps: Seq<ChunkStep>,
    keys: Seq<Seq<Seq<char>>>,
    size: int,
    chunk_size: int,
    j: int,
    k: int,
)
    requires
        steps_tile(steps, keys, 0, size),
        downloads_bounded(steps, size, chunk_size),
        cached_in_order(keys),
        forall|m: int|
            0 <= m < steps.len() ==> match #[trigger] steps[m] {
                ChunkStep::Download { start, end } => 0 <= start,
                ChunkStep::Cached { index } => 0 <= index < keys.len(),
            },
        0 <= j < k < steps.len(),
    ensures
        step_range(steps[j], keys).1 <= step_range(steps[k], keys).0,
    decreases k - j,
{
    if k > j + 1 {
        lemma_steps_advance(steps, keys, size, chunk_size, j, k - 1);
        let prev = steps[k - 1];
        match prev {
            ChunkStep::Download { .. } => {},
            ChunkStep::Cached { index } => {
                assert(chunk_key_parses(keys[index]));
                assert(key_start(keys[index]) <= key_end(keys[index]));
            },
        }
    }
}

/// Every chunk that a plan downloads is named under the blob's key by its
/// byte range, both offsets zero-padded to the number of decimal digits of
/// the file's size: the key splits back into the blob key and the start and
/// end of the download, its name is two offsets of that width around a dash,
/// and it lies, in string order, between the names of the empty chunks at
/// the start ("0-0") and at the end ("[size]-[size]") of the file, the key
/// range in which the chunks of the file are looked up again.
pub proof fn lemma_plan_download_keys(
    blob: Seq<Seq<char>>,
    size: usize,
    chunk_size: usize,
    keys: Seq<Seq<Seq<char>>>,
)
    requires
        plan_steps(0, 0, size as int, chunk_size as int, keys) is Some,
    ensures
        ({
            let steps = plan_steps(0, 0, size as int, chunk_size as int, keys)->0;
            let names = plan_keys(steps, blob, keys, size as int);
            &&& names.len() == steps.len()
            &&& forall|j: int|
                0 <= j < names.len() ==> (#[trigger] names[j] matches Err(key) ==> (key.drop_last()
                    == blob && chunk_key_parses(key) && key_start(key) == step_range(
                    steps[j],
                    keys,
                ).0 && key_end(key) == step_range(steps[j], keys).1 && key.last().len() == 2
                    * decimal_spec(size as nat).len() + 1 && !lex_lt(
                    key.last(),
                    chunk_name_spec(0, 0, size as nat),
                ) && !lex_lt(chunk_name_spec(size as nat, size as nat, size as nat), key.last())))
        }),
{
    let steps = plan_steps(0, 0, size as int, chunk_size as int, keys)->0;
    let names = plan_keys(steps, blob, keys, size as int);
    lemma_plan_tiles(0, 0, size as int, chunk_size as int, keys);
    lemma_plan_steps_within(0, 0, size as int, chunk_size as int, keys);
    assert forall|j: int| 0 <= j < names.len() implies (#[trigger] names[j] matches Err(key) ==> (
    key.drop_last() == blob && chunk_key_parses(key) && key_start(key) == step_range(
        steps[j],
        keys,
    ).0 && key_end(key) == step_range(steps[j], keys).1 && key.last().len() == 2 * decimal_spec(
        size as nat,
    ).len() + 1 && !lex_lt(key.last(), chunk_name_spec(0, 0, size as nat)) && !lex_lt(
        chunk_name_spec(size as nat, size as nat, size as nat),
        key.last(),
    ))) by {
        let step = steps[j];
        assert(names[j] == step_key(step, blob, keys, size as int));
        match step {
            ChunkStep::Cached { .. } => {},
            ChunkStep::Download { start, end } => {
                let s: usize = start as usize;
                let e: usize = end as usize;
                assert(s as int == start && e as int == end);
                let w = decimal_spec(size as nat).len();
                lemma_chunk_key_splits_back(blob, s, e, size);
                lemma_decimal_len_at_most(s as nat, size as nat);
                lemma_decimal_len_at_most(e as nat, size as nat);
                lemma_padded_order(s, e, w);
                lemma_chunk_names_within(s, e, size);
            },
        }
    }
}

/// When the cached chunks are in order and apart, the chunks that a plan
/// downloads come in the string order of their names, the order in which
/// the browser store keeps them.
pub proof fn lemma_plan_download_keys_in_order(
    blob: Seq<Seq<char>>,
    size: usize,
    chunk_size: usize,
    keys: Seq<Seq<Seq<char>>>,
)
    requires
        plan_steps(0, 0, size as int, chunk_size as int, keys) is Some,
        cached_in_order(keys),
    ensures
        ({
            let steps = plan_steps(0, 0, size as int, chunk_size as int, keys)->0;
            let names = plan_keys(steps, blob, keys, size as int);
            forall|j: int, k: int|
                0 <= j < k < names.len() ==> ((#[trigger] names[j], #[trigger] names[k]) matches (
                    Err(a),
                    Err(b),
                ) ==> lex_lt(a.last(), b.last()))
        }),
{
    let steps = plan_steps(0, 0, size as int, chunk_size as int, keys)->0;
    let names = plan_keys(steps, blob, keys, size as int);
    lemma_plan_tiles(0, 0, size as int, chunk_size as int, keys);
    lemma_plan_steps_within(0, 0, size as int, chunk_size as int, keys);
    assert forall|j: int, k: int| 0 <= j < k < names.len() implies ((#[trigger] names[j],
        #[trigger] names[k]) matches (Err(a), Err(b)) ==> lex_lt(a.last(), b.last())) by {
        assert(names[j] == step_key(steps[j], blob, keys, size as int));
        assert(names[k] == step_key(steps[k], blob, keys, size as int));
        match (steps[j], steps[k]) {
            (ChunkStep::Download { start: s1, end: e1 }, ChunkStep::Download { start: s2, end: e2 }) => {
                lemma_steps_advance(steps, keys, size as int, chunk_size as int, j, k);
                let a: usize = s1 as usize;
                let b: usize = e1 as usize;
                let c: usize = s2 as usize;
                let d: usize = e2 as usize;
                assert(a as int == s1 && b as int == e1 && c as int == s2 && d as int == e2);
                lemma_chunk_names_order(a, b, c, d, size);
                assert(blob.push(chunk_name_spec(a as nat, b as nat, size as nat)).last()
                    == chunk_name_spec(a as nat, b as nat, size as nat));
                assert(blob.push(chunk_name_spec(c as nat, d as nat, size as nat)).last()
                    == chunk_name_spec(c as nat, d as nat, size as nat));
            },
            _ => {},
        }
    }
}

/// The keys of a list of chunk keys.
pub open spec fn keys_view(keys: Seq<TmpFileBlobKey>) -> Seq<Seq<Seq<char>>> {
    keys.map_values(|k: TmpFileBlobKey| k@)
}

/// The keys of a chunk list.
pub open spec fn chunk_list_view(list: Seq<Result<TmpFileBlobKey, TmpFileBlobKey>>) -> Seq<
    Result<Seq<Seq<char>>, Seq<Seq<char>>>,
> {
    list.map_values(
        |r: Result<TmpFileBlobKey, TmpFileBlobKey>|
            match r {
                Ok(k) => Ok(k@),
                Err(k) => Err(k@),
            },
    )
}

/// The chunks of [try_plan_chunks], found by walking the file from its start.
fn plan_chunks_loop(
    blob_path: &BlobHashPath,
    size_bytes: usize,
    chunk_size: usize,
    cached_chunk_keys: &Vec<TmpFileBlobKey>,
) -> (r: Option<TmpFileBlobKeyList>)
    ensures
        r is Some <==> plan_steps(0, 0, size_bytes as int, chunk_size as int, keys_view(cached_chunk_keys@)) is Some,
        r matches Some(list) ==> chunk_list_view(list@) == plan_keys(
            plan_steps(0, 0, size_bytes as int, chunk_size as int, keys_view(cached_chunk_keys@))->0,
            blob_path@,
            keys_view(cached_chunk_keys@),
            size_bytes as int,
        ),
{
    let ghost keys = keys_view(cached_chunk_keys@);
    let ghost size = size_bytes as int;
    let ghost cs = chunk_size as int;
    let ghost whole = plan_steps(0, 0, size, cs, keys);
    let ghost all = whole->0;

    let mut chunks: TmpFileBlobKeyList = Vec::new();
    let mut byte_start: usize = 0;
    let mut cached_chunk_i: usize = 0;
    let ghost mut done: Seq<ChunkStep> = Seq::empty();
    assert(done + plan_steps(0, 0, size, cs, keys)->0 =~= all);
    while byte_start < size_bytes
        invariant
            keys == keys_view(cached_chunk_keys@),
            size == size_bytes as int,
            cs == chunk_size as int,
            whole == plan_steps(0, 0, size, cs, keys),
            all == whole->0,

            cached_chunk_i <= cached_chunk_keys.len(),
            whole is Some <==> plan_steps(byte_start as int, cached_chunk_i as int, size, cs, keys) is Some,
            whole is Some ==> done + plan_steps(byte_start as int, cached_chunk_i as int, size, cs, keys)->0 == all,
            chunk_list_view(chunks@) == plan_keys(done, blob_path@, keys, size),
        decreases cached_chunk_keys.len() - cached_chunk_i, size_bytes - byte_start,
    {
        let ghost pos = byte_start as int;
        let ghost i = cached_chunk_i as int;
        let ghost rest = plan_steps(pos, i, size, cs, keys)->0;
        let mut byte_end: usize = if size_bytes - byte_start < chunk_size {
            size_bytes
        } else {
            byte_start + chunk_size
        };
        let mut take_cached = false;
        let mut next_end: usize = 0;
        if cached_chunk_i < cached_chunk_keys.len() {
            let next_cached_chunk = &cached_chunk_keys[cached_chunk_i];
            assert(keys[i] == next_cached_chunk@);
            let (cached_byte_start, cached_byte_end) = match next_cached_chunk.offsets() {
                Some(o) => o,
                None => return None,
            };
            if byte_start < cached_byte_start.0 {
                // cannot use the next cached chunk yet, but it bounds the
                // chunk to download now
                if cached_byte_start.0 < byte_end {
                    byte_end = cached_byte_start.0;
                }
            } else if byte_start == cached_byte_start.0 {
                take_cached = true;
                next_end = cached_byte_end.0;
            } else {
                // the position has passed the start of the next cached chunk
                return None;
            }
        }
        if take_cached {
            let next_cached_chunk = &cached_chunk_keys[cached_chunk_i];
            let kept = TmpFileBlobKey(path_prefix(&next_cached_chunk.0, next_cached_chunk.0.len()));
            assert(next_cached_chunk@.take(next_cached_chunk@.len() as int) =~= next_cached_chunk@);
            let ghost step = ChunkStep::Cached { index: i };
            let ghost cv = chunk_list_view(chunks@);
            chunks.push(Ok(kept));
            proof {
                assert(chunk_list_view(chunks@) =~= cv.push(step_key(step, blob_path@, keys, size)));
                assert(plan_keys(done.push(step), blob_path@, keys, size) =~= plan_keys(done, blob_path@, keys, size).push(step_key(step, blob_path@, keys, size)));
                if whole is Some {
                    let later = plan_steps(next_end as int, i + 1, size, cs, keys)->0;
                    assert(rest == seq![step] + later);
                    assert(done.push(step) + later =~= done + rest);
                }
                done = done.push(step);
            }
            cached_chunk_i = cached_chunk_i + 1;
            byte_start = next_end;
        } else {
            if byte_end <= byte_start {
                // a download of nothing would leave the position where it is
                return None;
            }
            let byte_len = byte_end - byte_start;
            let chunk_file = blob_path.chunk(
                BlobChunkOffset(byte_start),
                BlobChunkOffset(byte_start + byte_len),
                BlobChunkOffset(size_bytes),
            );
            let ghost step = ChunkStep::Download { start: pos, end: byte_end as int };
            let ghost cv = chunk_list_view(chunks@);
            chunks.push(Err(chunk_file));
            proof {
                assert(chunk_list_view(chunks@) =~= cv.push(step_key(step, blob_path@, keys, size)));
                assert(plan_keys(done.push(step), blob_path@, keys, size) =~= plan_keys(done, blob_path@, keys, size).push(step_key(step, blob_path@, keys, size)));
                if whole is Some {
                    let later = plan_steps(byte_end as int, i, size, cs, keys)->0;
                    assert(rest == seq![step] + later);
                    assert(done.push(step) + later =~= done + rest);
                }
                done = done.push(step);
            }
            byte_start = byte_start + byte_len;
        }
    }
    assert(done =~= all);
    Some(chunks)
}

/// Decides in which chunks a file of `size_bytes` bytes, kept under
/// `blob_path`, is fetched, given the keys of the chunks of it already in the
/// browser store in the order of their offsets: the steps of
/// [plan_steps] from the start of the file, each cached chunk kept as `Ok`
/// and each chunk to download named by its key as `Err`.  Nothing where
/// [plan_steps] has no steps: where a cached key that is reached does not
/// split, where a cached chunk starts before the position reached, or where
/// a download of nothing would repeat for ever.
pub fn try_plan_chunks(
    blob_path: &BlobHashPath,
    size_bytes: usize,
    chunk_size: usize,
    cached_chunk_keys: &Vec<TmpFileBlobKey>,
) -> (r: Option<TmpFileBlobKeyList>)
    ensures
        r is Some <==> plan_steps(0, 0, size_bytes as int, chunk_size as int, keys_view(cached_chunk_keys@)) is Some,
        cached_in_order(keys_view(cached_chunk_keys@)) && chunk_size > 0 ==> r is Some,
        r is Some ==> plan_covers_file(
            plan_steps(0, 0, size_bytes as int, chunk_size as int, keys_view(cached_chunk_keys@))->0,
            keys_view(cached_chunk_keys@),
            size_bytes as int,
            chunk_size as int,
        ),
        r matches Some(list) ==> chunk_list_view(list@) == plan_keys(
            plan_steps(0, 0, size_bytes as int, chunk_size as int, keys_view(cached_chunk_keys@))->0,
            blob_path@,
            keys_view(cached_chunk_keys@),
            size_bytes as int,
        ),
{
    let r = plan_chunks_loop(blob_path, size_bytes, chunk_size, cached_chunk_keys);
    proof {
        let keys = keys_view(cached_chunk_keys@);
        let size = size_bytes as int;
        let cs = chunk_size as int;
        if cached_in_order(keys) && cs > 0 {
            lemma_plan_defined(0, 0, size, cs, keys);
        }
        if r is Some {
            lemma_plan_tiles(0, 0, size, cs, keys);
            let all = plan_steps(0, 0, size, cs, keys)->0;
            assert(cached_indices(all) =~= Seq::new(cached_indices(all).len(), |t: int| t));
        }
    }
    r
}

/// Decides in which chunks a file of `size_bytes` bytes, kept under
/// `blob_path`, is fetched, given the keys of the chunks of it already in the
/// browser store in the order of their offsets: the steps of [plan_steps]
/// from the start of the file, each cached chunk kept as `Ok` and each chunk
/// to download named by its key as `Err`.
pub fn plan_chunks(
    blob_path: &BlobHashPath,
    size_bytes: usize,
    chunk_size: usize,
    cached_chunk_keys: &Vec<TmpFileBlobKey>,
) -> (r: TmpFileBlobKeyList)
    requires
        plan_steps(0, 0, size_bytes as int, chunk_size as int, keys_view(cached_chunk_keys@)) is Some,
    ensures
        plan_covers_file(
            plan_steps(0, 0, size_bytes as int, chunk_size as int, keys_view(cached_chunk_keys@))->0,
            keys_view(cached_chunk_keys@),
            size_bytes as int,
            chunk_size as int,
        ),
        chunk_list_view(r@) == plan_keys(
            plan_steps(0, 0, size_bytes as int, chunk_size as int, keys_view(cached_chunk_keys@))->0,
            blob_path@,
            keys_view(cached_chunk_keys@),
            size_bytes as int,
        ),
{
    try_plan_chunks(blob_path, size_bytes, chunk_size, cached_chunk_keys).unwrap()
}



/// What downloading a chunk takes: its size in bytes (its end minus its
/// start) and the value of the `Range` header that asks for its bytes, the
/// end excluded.
pub fn download_range(chunk_file: &TmpFileBlobKey) -> (r: (usize, String))
    requires
        chunk_key_parses(chunk_file@),
        chunk_start_spec(chunk_file@.last()) <= chunk_end_spec(chunk_file@.last()),
        chunk_end_spec(chunk_file@.last()) >= 1,
    ensures
        r.0 == chunk_end_spec(chunk_file@.last()) - chunk_start_spec(chunk_file@.last()),
        r.1@ == range_header_spec(
            chunk_start_spec(chunk_file@.last()) as nat,
            (chunk_end_spec(chunk_file@.last()) - 1) as nat,
        ),
{
    let (_prefix, byte_start, byte_end) = chunk_file.split();
    let size_bytes = byte_end.0 - byte_start.0;
    (size_bytes, range_header(byte_start.0, byte_end.0 - 1))
}

} // verus!

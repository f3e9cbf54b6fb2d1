//! Keys of the browser store (IndexedDB) that caches the hub's files.

use vstd::prelude::*;
use crate::cache::{
    Cache, PathType, Repo, folder_name_spec, lemma_folder_name_has_no_slash, repo_path_spec,
};
use crate::text::{
    decimal_len, decimal_spec, join_char, join_spec, lemma_decimal_len_at_most,
    lemma_digits_free_of, lemma_lex_lt_concat, lemma_padded_order, lemma_padded_parses,
    lemma_split_join, lemma_split_shape, lex_lt, padded_decimal, padded_spec, parse_usize,
    parse_usize_spec, pieces_free_of, split_char, split_spec,
};
use super::{
    path_prefix, BlobChunkOffset, BlobHash, BlobHashPath, FilesPath, FolderName, HubPath,
    HubRevPath, RevisionHash, hub_path_from_str_spec,
};

verus! {

/// Key to [DbStore::Hub], ie. "[Cache]/[FolderName]".
pub type HubKey = HubPath;

/// Key to [DbStore::RefHash], ie. "[Cache]/[FolderName]/refs/[RevisionPath]".
pub type RefHashKey = HubRevPath;

/// Key to [DbStore::Files], ie. "[Cache]/[FolderName]/snapshots/[RevisionHash]".
pub type FilesKey = FilesPath;

/// Key to [DbStore::FileBlob], ie. "[Cache]/[FolderName]/blobs/[BlobHash]".
pub type FileBlobKey = BlobHashPath;

/// Key to [DbStore::Path], ie. "[Cache]/[FolderName]/refs".
#[derive(Clone, Debug)]
pub struct PathKey(pub PathType);

/// Key to [DbStore::FileHash], ie. "[Cache]/[FolderName]/snapshots/[RevisionHash]/[FilePath]".
#[derive(Clone, Debug)]
pub struct FileHashKey(pub PathType);

/// Key to [DbStore::TmpFileBlob], ie.
/// "[Cache]/[FolderName]/blobs/[BlobHash]/[BlobChunkOffset]-[BlobChunkOffset]".
///
/// Note that each stringfied [BlobChunkOffset] is left-padded with zeros accordingly
/// to the size of the complete file.
#[derive(Clone, Debug)]
pub struct TmpFileBlobKey(pub PathType);

impl View for PathKey {
    type V = Seq<Seq<char>>;

    open spec fn view(&self) -> Seq<Seq<char>> {
        self.0.deep_view()
    }
}

impl View for FileHashKey {
    type V = Seq<Seq<char>>;

    open spec fn view(&self) -> Seq<Seq<char>> {
        self.0.deep_view()
    }
}

impl View for TmpFileBlobKey {
    type V = Seq<Seq<char>>;

    open spec fn view(&self) -> Seq<Seq<char>> {
        self.0.deep_view()
    }
}

impl HubPath {
    /// Splits the components in order: the cache, then the folder name.
    pub fn split(&self) -> (r: (Cache, FolderName))
        requires
            self@.len() >= 1,
        ensures
            r.0@ == self@.drop_last(),
            r.1@ == self@.last(),
    {
        let len: usize = self.0.len();
        let folder_name = self.0[len - 1].clone();
        let prefix = path_prefix(&self.0, len - 1);
        assert(self@.take(len - 1) =~= self@.drop_last());
        (Cache::new(prefix), FolderName(folder_name))
    }
}

impl PathKey {
    /// Splits the components in order: the cache, then the folder name
    /// (the component before `"refs"`).
    pub fn split(&self) -> (r: (Cache, FolderName))
        requires
            self@.len() >= 2,
        ensures
            r.0@ == self@.take(self@.len() - 2),
            r.1@ == self@[self@.len() - 2],
    {
        let len: usize = self.0.len();
        let folder_name = self.0[len - 2].clone();
        let prefix = path_prefix(&self.0, len - 2);
        (Cache::new(prefix), FolderName(folder_name))
    }
}

impl FilesPath {
    /// Splits the components in order: the hub path (without `"snapshots"`),
    /// then the revision hash.
    pub fn split(&self) -> (r: (HubPath, RevisionHash))
        requires
            self@.len() >= 2,
        ensures
            r.0@ == self@.take(self@.len() - 2),
            r.1@ == self@.last(),
    {
        let len: usize = self.0.len();
        let revision_hash = self.0[len - 1].clone();
        let prefix = path_prefix(&self.0, len - 2);
        (HubPath(prefix), RevisionHash(revision_hash))
    }
}

/// The number of decimal digits of `total`: the width that chunk offsets of
/// a file of `total` bytes are padded to.
pub open spec fn offset_width_spec(total: nat) -> nat {
    decimal_spec(total).len()
}

/// The last component of a chunk key: "[start]-[end]", both offsets
/// left-padded with zeros to the width of `total`.
pub open spec fn chunk_name_spec(start: nat, end: nat, total: nat) -> Seq<char> {
    padded_spec(start, offset_width_spec(total)) + seq!['-'] + padded_spec(end, offset_width_spec(total))
}

impl BlobHashPath {
    /// The key of the chunk `start`-`end` of this blob:
    /// "[FileBlobKey]/[start]-[end]".  The `start` and `end` are left-padded
    /// with `0`s accordingly to `complete_file_total_size`.
    pub fn chunk(
        &self,
        start: BlobChunkOffset,
        end: BlobChunkOffset,
        complete_file_total_size: BlobChunkOffset,
    ) -> (r: TmpFileBlobKey)
        ensures
            r@ == self@.push(
                chunk_name_spec(start.0 as nat, end.0 as nat, complete_file_total_size.0 as nat),
            ),
    {
        let start = start.0;
        let end = end.0;
        // the width of the complete file total size, so all offsets can be
        // left-padded with zeros (which keeps the keys in order as strings)
        let width = decimal_len(complete_file_total_size.0);
        let mut name = padded_decimal(start, width);
        let ghost ps = name@;
        name.push('-');
        let e = padded_decimal(end, width);
        name.append(e.as_str());
        assert(name@ =~= ps + seq!['-'] + e@);
        assert(name@ == chunk_name_spec(start as nat, end as nat, complete_file_total_size.0 as nat));
        let mut parts = path_prefix(&self.0, self.0.len());
        assert(self@.take(self@.len() as int) =~= self@);
        let ghost before = parts.deep_view();
        parts.push(name);
        proof {
            assert(parts.deep_view() =~= before.push(chunk_name_spec(start as nat, end as nat, complete_file_total_size.0 as nat)));
        }
        TmpFileBlobKey(parts)
    }

    /// Splits the components in order: the hub path (without `"blobs"`), then
    /// the blob hash.
    pub fn split(&self) -> (r: (HubPath, BlobHash))
        requires
            self@.len() >= 2,
        ensures
            r.0@ == self@.take(self@.len() - 2),
            r.1@ == self@.last(),
    {
        let len: usize = self.0.len();
        let blob_hash = self.0[len - 1].clone();
        let prefix = path_prefix(&self.0, len - 2);
        (HubPath(prefix), BlobHash(blob_hash))
    }
}

#[derive(Clone, Copy, Debug, PartialEq, Eq, Hash, Structural)]
pub enum DbStore {
    /// All projects within the database. Keys only.
    ///
    /// - Name: "[Cache]".
    /// - Key: "[Cache]/[FolderName]".
    Hub,
    /// For a project, shows a list of all of it's revisions paths.
    ///
    /// - Name: "[Cache]/path".
    /// - Key: "[Cache]/[FolderName]/refs".
    Path,
    /// For a project revision path, informs it's hash.
    ///
    /// - Name: "[Cache]/ref_hash".
    /// - Key: "[Cache]/[FolderName]/refs/[RevisionPath]".
    RefHash,
    /// For a project revision hash, informs it's files paths.
    ///
    /// - Name: "[Cache]/ref_files".
    /// - Key: "[Cache]/[FolderName]/snapshots/[RevisionHash]".
    Files,
    /// For a project revision file path, informs it's hash.
    ///
    /// - Name: "[Cache]/ref_file_hash".
    /// - Key: "[Cache]/[FolderName]/snapshots/[RevisionHash]/[FilePath]".
    FileHash,
    /// For a project file blob hash, informs it's data.
    ///
    /// - Name: "[Cache]/ref_file_blob".
    /// - Key: "[Cache]/[FolderName]/blobs/[BlobHash]".
    FileBlob,
    /// For a project temporary file blob hash, informs a chunk of it's data.
    ///
    /// - Name: "[Cache]/tmp_ref_file_blob".
    /// - Key: "[Cache]/[FolderName]/blobs/[BlobHash]/[BlobChunkOffset]-[BlobChunkOffset]".
    TmpFileBlob,
}

/// The name of each store, relative to the cache; empty for the hub store,
/// which is named by the cache alone.
pub open spec fn db_store_name_spec(store: DbStore) -> Seq<char> {
    match store {
        DbStore::Hub => ""@,
        DbStore::Path => "path"@,
        DbStore::RefHash => "ref_hash"@,
        DbStore::Files => "ref_files"@,
        DbStore::FileHash => "ref_file_hash"@,
        DbStore::FileBlob => "ref_file_blob"@,
        DbStore::TmpFileBlob => "tmp_ref_file_blob"@,
    }
}

impl DbStore {
    /// The name of the store, relative to the cache; empty for
    /// [DbStore::Hub], which is named by the cache alone.
    pub fn name(&self) -> (r: &str)
        ensures
            r@ == db_store_name_spec(*self),
    {
        match self {
            DbStore::Hub => "",
            DbStore::Path => "path",
            DbStore::RefHash => "ref_hash",
            DbStore::Files => "ref_files",
            DbStore::FileHash => "ref_file_hash",
            DbStore::FileBlob => "ref_file_blob",
            DbStore::TmpFileBlob => "tmp_ref_file_blob",
        }
    }
}

/// The components that `BlobHashPath::from_str` reads from `s`: the pieces
/// between `/`, where the last is the blob hash, the one before it stands for
/// `"blobs"`, and the ones before that are read as a hub path.
pub open spec fn blob_hash_path_from_str_spec(s: Seq<char>) -> Seq<Seq<char>> {
    let parts = split_spec(s, '/');
    hub_path_from_str_spec(join_spec(parts.take(parts.len() - 2), '/')).push("blobs"@).push(
        parts.last(),
    )
}

/// The components that `TmpFileBlobKey::from_str` reads from `s`: the last
/// piece between `/` is the chunk name, the ones before it are read as a blob
/// hash path.
pub open spec fn tmp_file_blob_key_from_str_spec(s: Seq<char>) -> Seq<Seq<char>> {
    let parts = split_spec(s, '/');
    blob_hash_path_from_str_spec(join_spec(parts.drop_last(), '/')).push(parts.last())
}

/// Whether a chunk name reads as "[start]-[end]": at least two pieces between
/// `-`, the first two of which parse as `usize`.
pub open spec fn chunk_name_parses(name: Seq<char>) -> bool {
    let se = split_spec(name, '-');
    &&& se.len() >= 2
    &&& parse_usize_spec(se[0]) is Some
    &&& parse_usize_spec(se[1]) is Some
}

/// The start offset of a chunk name "[start]-[end]".
pub open spec fn chunk_start_spec(name: Seq<char>) -> usize {
    parse_usize_spec(split_spec(name, '-')[0])->0
}

/// The end offset of a chunk name "[start]-[end]".
pub open spec fn chunk_end_spec(name: Seq<char>) -> usize {
    parse_usize_spec(split_spec(name, '-')[1])->0
}

/// Whether a chunk key splits: it has a last component, which reads as
/// "[start]-[end]".
pub open spec fn chunk_key_parses(key: Seq<Seq<char>>) -> bool {
    key.len() >= 1 && chunk_name_parses(key.last())
}

impl BlobHashPath {
    /// Reads "[Cache]/[FolderName]/blobs/[BlobHash]".  The piece before the
    /// blob hash is taken to be `"blobs"` whatever it holds.  Never fails; `s`
    /// must hold a `/`.
    pub fn from_str(s: &str) -> (r: Result<Self, ()>)
        requires
            split_spec(s@, '/').len() >= 2,
        ensures
            r matches Ok(b) && b@ == blob_hash_path_from_str_spec(s@),
    {
        let split = split_char(s, '/');
        let len: usize = split.len();
        let blob_hash = split[len - 1].clone();
        let prefix = path_prefix(&split, len - 2);
        let joined = join_char(&prefix, '/');
        let hub_path = match HubPath::from_str(joined.as_str()) {
            Ok(h) => h,
            Err(e) => return Err(e),
        };
        let mut file_blob_key = hub_path.0;
        let ghost h = file_blob_key.deep_view();
        file_blob_key.push(String::from_str("blobs"));
        file_blob_key.push(blob_hash);
        assert(file_blob_key.deep_view() =~= h.push("blobs"@).push(split_spec(s@, '/').last()));
        Ok(BlobHashPath(file_blob_key))
    }
}

impl TmpFileBlobKey {
    /// Splits the components in order: the blob key, then the start and end
    /// offsets read from the last component "[start]-[end]".
    pub fn split(&self) -> (r: (FileBlobKey, BlobChunkOffset, BlobChunkOffset))
        requires
            chunk_key_parses(self@),
        ensures
            r.0@ == self@.drop_last(),
            r.1.0 == chunk_start_spec(self@.last()),
            r.2.0 == chunk_end_spec(self@.last()),
    {
        let len: usize = self.0.len();
        let start_end = split_char(self.0[len - 1].as_str(), '-');
        let prefix = path_prefix(&self.0, len - 1);
        assert(self@.take(len - 1) =~= self@.drop_last());
        let start = parse_usize(start_end[0].as_str()).unwrap();
        let end = parse_usize(start_end[1].as_str()).unwrap();
        (BlobHashPath(prefix), BlobChunkOffset(start), BlobChunkOffset(end))
    }

    /// The start and end offsets read from the last component
    /// "[start]-[end]", or nothing when it does not read so.
    pub fn offsets(&self) -> (r: Option<(BlobChunkOffset, BlobChunkOffset)>)
        ensures
            r is Some <==> chunk_key_parses(self@),
            r matches Some(o) ==> o.0.0 == chunk_start_spec(self@.last()) && o.1.0
                == chunk_end_spec(self@.last()),
    {
        let len: usize = self.0.len();
        if len == 0 {
            return None;
        }
        let start_end = split_char(self.0[len - 1].as_str(), '-');
        if start_end.len() < 2 {
            return None;
        }
        match (parse_usize(start_end[0].as_str()), parse_usize(start_end[1].as_str())) {
            (Some(start), Some(end)) => Some((BlobChunkOffset(start), BlobChunkOffset(end))),
            _ => None,
        }
    }

    /// Reads "[Cache]/[FolderName]/blobs/[BlobHash]/[start]-[end]".  Never
    /// fails; `s` must hold at least two `/`.
    pub fn from_str(s: &str) -> (r: Result<Self, ()>)
        requires
            split_spec(s@, '/').len() >= 3,
        ensures
            r matches Ok(k) && k@ == tmp_file_blob_key_from_str_spec(s@),
    {
        let split = split_char(s, '/');
        let len: usize = split.len();
        let prefix = path_prefix(&split, len - 1);
        let joined = join_char(&prefix, '/');
        proof {
            let pre = split_spec(s@, '/').take(len - 1);
            lemma_split_shape(s@, '/');
            assert(pieces_free_of(pre, '/')) by {
                assert forall|i: int| 0 <= i < pre.len() implies !(#[trigger] pre[i]).contains('/') by {
                    assert(pre[i] == split_spec(s@, '/')[i]);
                }
            }
            lemma_split_join(pre, '/');
            assert(split_spec(s@, '/').drop_last() =~= pre);
        }
        let file_blob_key = match BlobHashPath::from_str(joined.as_str()) {
            Ok(b) => b,
            Err(e) => return Err(e),
        };
        let mut tmp_file_blob_key = file_blob_key.0;
        let ghost b = tmp_file_blob_key.deep_view();
        tmp_file_blob_key.push(split[len - 1].clone());
        assert(tmp_file_blob_key.deep_view() =~= b.push(split_spec(s@, '/').last()));
        Ok(TmpFileBlobKey(tmp_file_blob_key))
    }
}

/// A chunk key splits back into what it was made from: the blob key
/// `base`, the start offset and the end offset, whatever the file size the
/// offsets were padded for.
pub proof fn lemma_chunk_key_splits_back(base: Seq<Seq<char>>, start: usize, end: usize, total: usize)
    ensures
        ({
            let key = base.push(chunk_name_spec(start as nat, end as nat, total as nat));
            &&& chunk_key_parses(key)
            &&& key.drop_last() == base
            &&& chunk_start_spec(key.last()) == start
            &&& chunk_end_spec(key.last()) == end
        }),
{
    let w = offset_width_spec(total as nat);
    let ps = padded_spec(start as nat, w);
    let pe = padded_spec(end as nat, w);
    let name = chunk_name_spec(start as nat, end as nat, total as nat);
    lemma_padded_parses(start, w);
    lemma_padded_parses(end, w);
    lemma_digits_free_of(ps, '-');
    lemma_digits_free_of(pe, '-');
    let pieces = seq![ps, pe];
    assert(pieces.drop_last() =~= seq![ps]);
    assert(join_spec(seq![ps], '-') == ps);
    assert(join_spec(pieces, '-') == join_spec(seq![ps], '-').push('-') + pe);
    assert(join_spec(pieces, '-') =~= name);
    assert(pieces_free_of(pieces, '-'));
    lemma_split_join(pieces, '-');
    let key = base.push(name);
    assert(key.drop_last() =~= base);
}

/// Chunk names of one file compare as strings in the order of their start
/// offsets, then of their end offsets, since every offset is zero-padded to
/// the width of the file's size: the browser store, which keeps its keys in
/// string order, keeps the chunks of a file in the order of their bytes.
pub proof fn lemma_chunk_names_order(s1: usize, e1: usize, s2: usize, e2: usize, total: usize)
    requires
        s1 <= total,
        e1 <= total,
        s2 <= total,
        e2 <= total,
    ensures
        lex_lt(
            chunk_name_spec(s1 as nat, e1 as nat, total as nat),
            chunk_name_spec(s2 as nat, e2 as nat, total as nat),
        ) <==> (s1 < s2 || (s1 == s2 && e1 < e2)),
{
    let w = offset_width_spec(total as nat);
    lemma_decimal_len_at_most(s1 as nat, total as nat);
    lemma_decimal_len_at_most(e1 as nat, total as nat);
    lemma_decimal_len_at_most(s2 as nat, total as nat);
    lemma_decimal_len_at_most(e2 as nat, total as nat);
    lemma_padded_order(s1, s2, w);
    lemma_padded_order(e1, e2, w);
    let ps1 = padded_spec(s1 as nat, w);
    let ps2 = padded_spec(s2 as nat, w);
    let pe1 = padded_spec(e1 as nat, w);
    let pe2 = padded_spec(e2 as nat, w);
    let dash = seq!['-'];
    assert(chunk_name_spec(s1 as nat, e1 as nat, total as nat) =~= ps1 + (dash + pe1));
    assert(chunk_name_spec(s2 as nat, e2 as nat, total as nat) =~= ps2 + (dash + pe2));
    lemma_lex_lt_concat(ps1, dash + pe1, ps2, dash + pe2);
    lemma_lex_lt_concat(dash, pe1, dash, pe2);
    assert(!lex_lt(dash, dash)) by {
        assert(dash.skip(1) =~= Seq::<char>::empty());
        assert(dash[0] == dash[0]);
        assert(lex_lt(dash, dash) == lex_lt(dash.skip(1), dash.skip(1)));
        assert(!lex_lt(Seq::<char>::empty(), Seq::<char>::empty()));
    }
    lemma_padded_parses(s1, w);
    lemma_padded_parses(s2, w);
}

/// Every chunk name of a file lies, in string order, between the name of the
/// empty chunk at its start ("0-0") and that of the empty chunk at its end
/// ("[size]-[size]"), so a key range between those two holds all of them.
pub proof fn lemma_chunk_names_within(start: usize, end: usize, total: usize)
    requires
        start <= total,
        end <= total,
    ensures
        !lex_lt(
            chunk_name_spec(start as nat, end as nat, total as nat),
            chunk_name_spec(0, 0, total as nat),
        ),
        !lex_lt(
            chunk_name_spec(total as nat, total as nat, total as nat),
            chunk_name_spec(start as nat, end as nat, total as nat),
        ),
{
    lemma_chunk_names_order(start, end, 0, 0, total);
    lemma_chunk_names_order(total, total, start, end, total);
}

/// The path of a repo's folder splits back into the cache and the folder
/// name.
pub proof fn lemma_repo_path_splits_back(cache: Seq<Seq<char>>, repo: Repo)
    ensures
        repo_path_spec(cache, repo).len() >= 1,
        repo_path_spec(cache, repo).drop_last() == cache,
        repo_path_spec(cache, repo).last() == folder_name_spec(repo.repo_type, repo.repo_id@),
{
    assert(repo_path_spec(cache, repo).drop_last() =~= cache);
}

/// A repo's blob path and its snapshot (pointer) path split back into the
/// repo's folder path and the hash they were made from.
pub proof fn lemma_repo_keys_split_back(cache: Seq<Seq<char>>, repo: Repo, hash: Seq<char>)
    ensures
        ({
            let p = repo_path_spec(cache, repo);
            let blob = p.push("blobs"@).push(hash);
            let pointer = p.push("snapshots"@).push(hash);
            &&& blob.len() >= 2 && blob.take(blob.len() - 2) == p && blob.last() == hash
            &&& pointer.len() >= 2 && pointer.take(pointer.len() - 2) == p && pointer.last()
                == hash
        }),
{
    let p = repo_path_spec(cache, repo);
    assert(p.push("blobs"@).push(hash).take(p.len() as int) =~= p);
    assert(p.push("snapshots"@).push(hash).take(p.len() as int) =~= p);
}

/// The key of a chunk of a repo's blob, joined with `/` as the browser
/// store keeps it, reads back as the same key, when the cache path is not
/// empty and neither it nor the blob hash holds a `/`.
pub proof fn lemma_chunk_key_reads_back(
    cache: Seq<Seq<char>>,
    repo: Repo,
    etag: Seq<char>,
    start: usize,
    end: usize,
    total: usize,
)
    requires
        cache.len() >= 1,
        pieces_free_of(cache, '/'),
        !etag.contains('/'),
    ensures
        ({
            let key = repo_path_spec(cache, repo).push("blobs"@).push(etag).push(
                chunk_name_spec(start as nat, end as nat, total as nat),
            );
            &&& split_spec(join_spec(key, '/'), '/').len() >= 3
            &&& tmp_file_blob_key_from_str_spec(join_spec(key, '/')) == key
        }),
{
    let hub = repo_path_spec(cache, repo);
    let blob = hub.push("blobs"@).push(etag);
    let name = chunk_name_spec(start as nat, end as nat, total as nat);
    let key = blob.push(name);
    lemma_folder_name_has_no_slash(repo.repo_type, repo.repo_id@);
    reveal_strlit("blobs");
    assert(!"blobs"@.contains('/')) by {
        if "blobs"@.contains('/') {
            let k = choose|k: int| 0 <= k < "blobs"@.len() && "blobs"@[k] == '/';
        }
    }
    let w = offset_width_spec(total as nat);
    lemma_padded_parses(start, w);
    lemma_padded_parses(end, w);
    lemma_digits_free_of(padded_spec(start as nat, w), '/');
    lemma_digits_free_of(padded_spec(end as nat, w), '/');
    assert(!name.contains('/')) by {
        let ps = padded_spec(start as nat, w);
        let pe = padded_spec(end as nat, w);
        if name.contains('/') {
            let k = choose|k: int| 0 <= k < name.len() && name[k] == '/';
            if k < ps.len() {
                assert(ps[k] == '/');
            } else if k == ps.len() {
                assert(name[k] == '-');
            } else {
                assert(pe[k - ps.len() - 1] == '/');
            }
        }
    }
    assert(pieces_free_of(hub, '/')) by {
        assert forall|i: int| 0 <= i < hub.len() implies !(#[trigger] hub[i]).contains('/') by {
            if i < cache.len() {
                assert(hub[i] == cache[i]);
            }
        }
    }
    assert(pieces_free_of(blob, '/')) by {
        assert forall|i: int| 0 <= i < blob.len() implies !(#[trigger] blob[i]).contains('/') by {
            if i < hub.len() {
                assert(blob[i] == hub[i]);
            }
        }
    }
    assert(pieces_free_of(key, '/')) by {
        assert forall|i: int| 0 <= i < key.len() implies !(#[trigger] key[i]).contains('/') by {
            if i < blob.len() {
                assert(key[i] == blob[i]);
            }
        }
    }
    lemma_split_join(key, '/');
    assert(key.drop_last() =~= blob);
    lemma_split_join(blob, '/');
    assert(blob.take(blob.len() - 2) =~= hub);
    lemma_split_join(hub, '/');
    assert(blob.last() == etag);
    assert(hub.push("blobs"@).push(etag) =~= blob);
}

} // verus!

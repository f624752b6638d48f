//! The on-disk store: which directories to create, how a directory listing
//! turns into identifiers, and what `put`, `get` and `remove` do to the file
//! at an artifact's path. The file system itself is driven by the caller,
//! which hands in what it found and carries out the returned plan.

use vstd::prelude::*;
use crate::ids::{
    contract_id_from_bech32, parse_contract_id, parse_schema_id, schema_id_from_bech32,
    ContractId, SchemaId,
};
use crate::artifacts::{
    schema_encoding, genesis_encoding, transition_encoding, extension_encoding,
    schema_id_of_encoding, genesis_contract_id, transition_node_id, extension_node_id,
    schema_id_from_encoding, contract_id_of, decode_extension, decode_genesis, decode_schema, decode_transition,
    encode_extension, encode_genesis, encode_schema, encode_transition, extension_decodes,
    extension_id_of, genesis_decodes, schema_decodes, transition_decodes,
    transition_id_of,
};
use crate::hex::{id_from_hex, id_from_hex_text, id_hex, lemma_hex_round_trip};
use crate::ids::{AnchorId, schema_id_bech32, contract_id_bech32, NodeId};
use crate::layout::{artifact_path, kind_dir_spec, rgb_suffix, ArtifactKind, DiskStorageConfig};

verus! {

/// Failures of store operations.
#[derive(Clone, Copy, Debug, PartialEq, Eq, Structural)]
pub enum DiskStorageError {
    /// The file system or the index engine failed.
    Io,
    /// The artifact or index entry is absent.
    NotFound,
    /// A file's contents or a file name do not decode.
    Corrupt,
    /// A transition is already bound to a different anchor.
    Conflict,
    /// The root or one of its sub-directories is not a directory.
    Config,
}

/// What stands at a path on disk.
#[derive(Clone, Copy, Debug, PartialEq, Eq, Structural)]
pub enum PathState {
    Missing,
    Directory,
    NotDirectory,
}

/// The root followed by the five kind directories, in the order in which
/// they are created.
pub open spec fn required_dirs_spec(root: Seq<char>) -> Seq<Seq<char>> {
    seq![
        root,
        kind_dir_spec(root, ArtifactKind::Schema),
        kind_dir_spec(root, ArtifactKind::Genesis),
        kind_dir_spec(root, ArtifactKind::Transition),
        kind_dir_spec(root, ArtifactKind::Extension),
        kind_dir_spec(root, ArtifactKind::Anchor),
    ]
}

/// Those of the first `n` of `dirs` whose state is `Missing`, in order.
pub open spec fn missing_dirs(dirs: Seq<Seq<char>>, states: Seq<PathState>, n: int) -> Seq<
    Seq<char>,
>
    decreases n,
{
    if n <= 0 {
        seq![]
    } else if states[n - 1] == PathState::Missing {
        missing_dirs(dirs, states, n - 1).push(dirs[n - 1])
    } else {
        missing_dirs(dirs, states, n - 1)
    }
}

/// Whether some path of the layout exists and is not a directory.
pub open spec fn blocked(states: Seq<PathState>) -> bool {
    exists|i: int| 0 <= i < states.len() && states[i] == PathState::NotDirectory
}

/// The views of a list of strings.
pub open spec fn string_views(v: Seq<String>) -> Seq<Seq<char>> {
    v.map_values(|s: String| s@)
}

/// Whether a file name carries the `.rgb` extension.
pub open spec fn has_rgb_ext(s: Seq<char>) -> bool {
    s.len() >= 4 && s.subrange(s.len() - 4, s.len() as int) == rgb_suffix()
}

/// The first `n` names that carry the `.rgb` extension, in order.
pub open spec fn rgb_names(names: Seq<Seq<char>>, n: int) -> Seq<Seq<char>>
    decreases n,
{
    if n <= 0 {
        seq![]
    } else if has_rgb_ext(names[n - 1]) {
        rgb_names(names, n - 1).push(names[n - 1])
    } else {
        rgb_names(names, n - 1)
    }
}

/// Every name that `rgb_names` keeps carries the extension.
pub proof fn lemma_rgb_names_ext(names: Seq<Seq<char>>, n: int)
    requires
        n <= names.len(),
    ensures
        forall|j: int|
            0 <= j < rgb_names(names, n).len() ==> has_rgb_ext(#[trigger] rgb_names(names, n)[j]),
    decreases n,
{
    if n > 0 {
        lemma_rgb_names_ext(names, n - 1);
        let prev = rgb_names(names, n - 1);
        if has_rgb_ext(names[n - 1]) {
            assert forall|j: int| 0 <= j < prev.len() + 1 implies has_rgb_ext(
                #[trigger] prev.push(names[n - 1])[j],
            ) by {
                if j < prev.len() {
                    assert(prev.push(names[n - 1])[j] == prev[j]);
                }
            }
        }
    }
}

/// A name with the extension appended carries the extension, and its stem
/// is the name.
pub proof fn lemma_rgb_name_stem(text: Seq<char>)
    ensures
        has_rgb_ext(text + rgb_suffix()),
        stem(text + rgb_suffix()) == text,
{
    let n = text + rgb_suffix();
    assert(n.subrange(n.len() - 4, n.len() as int) =~= rgb_suffix());
    assert(n.subrange(0, n.len() - 4) =~= text);
}

/// The file names written for a sequence of schema identifiers.
pub open spec fn schema_file_names(ids: Seq<Seq<u8>>) -> Seq<Seq<char>> {
    ids.map_values(|b: Seq<u8>| schema_id_bech32(b) + rgb_suffix())
}

/// Where the schemata directory holds exactly the files written for `ids`,
/// and each identifier's bech32 text reads back as that identifier, every
/// file is listed and its stem parses to the identifier it was written for.
pub proof fn lemma_listing_of_written_names(ids: Seq<Seq<u8>>)
    requires
        forall|i: int|
            0 <= i < ids.len() ==> schema_id_from_bech32(#[trigger] schema_id_bech32(ids[i]))
                == Some(ids[i]),
    ensures
        rgb_names(schema_file_names(ids), ids.len() as int) == schema_file_names(ids),
        schema_stems_parse(schema_file_names(ids), ids.len() as int),
        forall|i: int|
            0 <= i < ids.len() ==> schema_id_from_bech32(stem(#[trigger] schema_file_names(ids)[i]))
                == Some(ids[i]),
{
    let names = schema_file_names(ids);
    assert forall|i: int| 0 <= i < ids.len() implies has_rgb_ext(#[trigger] names[i]) && stem(
        names[i],
    ) == schema_id_bech32(ids[i]) by {
        lemma_rgb_name_stem(schema_id_bech32(ids[i]));
    }
    lemma_rgb_names_all(names, ids.len() as int);
    assert(names.take(ids.len() as int) =~= names);
}

/// Where every one of the first `n` names carries the extension, all of them
/// are kept.
pub proof fn lemma_rgb_names_all(names: Seq<Seq<char>>, n: int)
    requires
        0 <= n <= names.len(),
        forall|i: int| 0 <= i < n ==> has_rgb_ext(#[trigger] names[i]),
    ensures
        rgb_names(names, n) == names.take(n),
    decreases n,
{
    if n > 0 {
        lemma_rgb_names_all(names, n - 1);
        assert(names.take(n - 1).push(names[n - 1]) =~= names.take(n));
    } else {
        assert(names.take(0) =~= Seq::<Seq<char>>::empty());
    }
}

/// A name without its last four characters (the `.rgb` extension).
pub open spec fn stem(s: Seq<char>) -> Seq<char> {
    s.subrange(0, s.len() - 4)
}

/// Whether the stem of each of the first `n` names parses as a schema
/// identifier.
pub open spec fn schema_stems_parse(names: Seq<Seq<char>>, n: int) -> bool {
    forall|i: int| 0 <= i < n ==> (#[trigger] schema_id_from_bech32(stem(names[i]))) is Some
}

/// Whether the stem of each of the first `n` names parses as a contract
/// identifier.
pub open spec fn contract_stems_parse(names: Seq<Seq<char>>, n: int) -> bool {
    forall|i: int| 0 <= i < n ==> (#[trigger] contract_id_from_bech32(stem(names[i]))) is Some
}

/// Whether the stem of each of the first `n` names is a hexadecimal
/// identifier.
pub open spec fn hex_stems_parse(names: Seq<Seq<char>>, n: int) -> bool {
    forall|i: int| 0 <= i < n ==> (#[trigger] id_from_hex(stem(names[i]))) is Some
}

/// The file names written for a sequence of node or anchor identifiers.
pub open spec fn hex_file_names(ids: Seq<Seq<u8>>) -> Seq<Seq<char>> {
    ids.map_values(|b: Seq<u8>| id_hex(b) + rgb_suffix())
}

/// Where a transitions, extensions or anchors directory holds exactly the
/// files written for `ids`, every file is listed and its stem parses to the
/// identifier it was written for.
pub proof fn lemma_hex_listing_complete(ids: Seq<Seq<u8>>)
    requires
        forall|i: int| 0 <= i < ids.len() ==> (#[trigger] ids[i]).len() == 32,
    ensures
        rgb_names(hex_file_names(ids), ids.len() as int) == hex_file_names(ids),
        hex_stems_parse(hex_file_names(ids), ids.len() as int),
        forall|i: int|
            0 <= i < ids.len() ==> id_from_hex(stem(#[trigger] hex_file_names(ids)[i])) == Some(
                ids[i],
            ),
{
    let names = hex_file_names(ids);
    assert forall|i: int| 0 <= i < ids.len() implies has_rgb_ext(#[trigger] names[i]) && id_from_hex(
        stem(names[i]),
    ) == Some(ids[i]) by {
        lemma_rgb_name_stem(id_hex(ids[i]));
        lemma_hex_round_trip(ids[i]);
    }
    lemma_rgb_names_all(names, ids.len() as int);
    assert(names.take(ids.len() as int) =~= names);
}

/// The file at a path, if there is one.
pub open spec fn file_at(disk: Map<Seq<char>, Seq<u8>>, path: Seq<char>) -> Option<Seq<u8>> {
    if disk.contains_key(path) {
        Some(disk[path])
    } else {
        None
    }
}

/// What `put` reports for `bytes` at a path that holds `existing`: whether a
/// file was there, or `Corrupt` where it holds other bytes (two artifacts
/// with one identifier).
pub open spec fn put_outcome(bytes: Seq<u8>, existing: Option<Seq<u8>>) -> Result<
    bool,
    DiskStorageError,
> {
    match existing {
        None => Ok(false),
        Some(e) => if e == bytes {
            Ok(true)
        } else {
            Err(DiskStorageError::Corrupt)
        },
    }
}

/// The temporary sibling that a new file is written to before it is renamed
/// into place.
pub open spec fn tmp_path_of(path: Seq<char>, token: Seq<char>) -> Seq<char> {
    path + seq!['.', 't', 'm', 'p', '-'] + token
}

/// The disk after the temporary file has been written.
pub open spec fn staged(
    disk: Map<Seq<char>, Seq<u8>>,
    path: Seq<char>,
    bytes: Seq<u8>,
    token: Seq<char>,
) -> Map<Seq<char>, Seq<u8>> {
    disk.insert(tmp_path_of(path, token), bytes)
}

/// The disk after the temporary file has been renamed onto `path`.
pub open spec fn renamed(disk: Map<Seq<char>, Seq<u8>>, path: Seq<char>, token: Seq<char>) -> Map<
    Seq<char>,
    Seq<u8>,
> {
    disk.remove(tmp_path_of(path, token)).insert(path, disk[tmp_path_of(path, token)])
}

/// The disk after a `put` of `bytes` at `path` that succeeded: a new file is
/// staged and renamed; an existing one is left alone.
pub open spec fn after_put(
    disk: Map<Seq<char>, Seq<u8>>,
    path: Seq<char>,
    bytes: Seq<u8>,
    token: Seq<char>,
) -> Map<Seq<char>, Seq<u8>> {
    if disk.contains_key(path) {
        disk
    } else {
        renamed(staged(disk, path, bytes, token), path, token)
    }
}

/// The disk after `remove` at `path`.
pub open spec fn after_remove(disk: Map<Seq<char>, Seq<u8>>, path: Seq<char>) -> Map<
    Seq<char>,
    Seq<u8>,
> {
    disk.remove(path)
}


/// The bytes held by an optional vector.
pub open spec fn opt_bytes(o: Option<Vec<u8>>) -> Option<Seq<u8>> {
    match o {
        Some(v) => Some(v@),
        None => None,
    }
}

/// A `put` that succeeds leaves the artifact's bytes at its path, so a
/// `get` that follows reads them back.
pub proof fn lemma_put_then_get(
    disk: Map<Seq<char>, Seq<u8>>,
    path: Seq<char>,
    bytes: Seq<u8>,
    token: Seq<char>,
)
    requires
        put_outcome(bytes, file_at(disk, path)) is Ok,
    ensures
        file_at(after_put(disk, path, bytes, token), path) == Some(bytes),
{
    lemma_tmp_differs(path, token);
}

/// A second `put` of the same bytes reports that the file was there and
/// changes nothing.
pub proof fn lemma_put_idempotent(
    disk: Map<Seq<char>, Seq<u8>>,
    path: Seq<char>,
    bytes: Seq<u8>,
    t1: Seq<char>,
    t2: Seq<char>,
)
    requires
        put_outcome(bytes, file_at(disk, path)) is Ok,
    ensures
        put_outcome(bytes, file_at(after_put(disk, path, bytes, t1), path)) == Ok::<
            bool,
            DiskStorageError,
        >(true),
        after_put(after_put(disk, path, bytes, t1), path, bytes, t2) == after_put(
            disk,
            path,
            bytes,
            t1,
        ),
{
    lemma_put_then_get(disk, path, bytes, t1);
}

/// After `put` and then `remove` of the same path, nothing is there.
pub proof fn lemma_remove_after_put(
    disk: Map<Seq<char>, Seq<u8>>,
    path: Seq<char>,
    bytes: Seq<u8>,
    token: Seq<char>,
)
    ensures
        !after_remove(after_put(disk, path, bytes, token), path).contains_key(path),
{
}

/// The temporary sibling is never the final path.
pub proof fn lemma_tmp_differs(path: Seq<char>, token: Seq<char>)
    ensures
        tmp_path_of(path, token) != path,
{
    assert(tmp_path_of(path, token).len() > path.len());
}

/// Stopping after the temporary file is written and before it is renamed
/// leaves the final path as it was.
pub proof fn lemma_crash_before_rename(
    disk: Map<Seq<char>, Seq<u8>>,
    path: Seq<char>,
    bytes: Seq<u8>,
    token: Seq<char>,
)
    ensures
        file_at(staged(disk, path, bytes, token), path) == file_at(disk, path),
{
    lemma_tmp_differs(path, token);
}

/// On an empty root all six directories are to be created; where the
/// anchors directory is a regular file, opening fails.
pub proof fn lemma_bootstrap(root: Seq<char>)
    ensures
        !blocked(seq![PathState::Missing; 6]),
        missing_dirs(required_dirs_spec(root), seq![PathState::Missing; 6], 6)
            == required_dirs_spec(root),
        blocked(
            seq![PathState::Directory; 5].push(PathState::NotDirectory),
        ),
{
    let ms = seq![PathState::Missing; 6];
    let d = required_dirs_spec(root);
    assert(ms[0] == PathState::Missing);
    assert(ms[5] == PathState::Missing);
    assert(!blocked(ms)) by {
        assert forall|i: int| 0 <= i < 6 implies ms[i] != PathState::NotDirectory by {}
    }
    reveal_with_fuel(missing_dirs, 7);
    assert(missing_dirs(d, ms, 6) =~= d);
    let bs = seq![PathState::Directory; 5].push(PathState::NotDirectory);
    assert(bs[5] == PathState::NotDirectory);
}

/// Where a new file is written, then renamed to.
#[derive(Debug)]
pub struct WritePlan {
    pub tmp_path: String,
    pub final_path: String,
}

/// What a `put` reports, and the write it needs, if any.
#[derive(Debug)]
pub struct PutPlan {
    pub existed: bool,
    pub write: Option<WritePlan>,
}

/// What a `remove` reports, and the file to unlink, if any.
#[derive(Debug)]
pub struct RemovePlan {
    pub existed: bool,
    pub unlink: Option<String>,
}

/// Whether two byte vectors are equal.
pub fn bytes_eq(a: &Vec<u8>, b: &Vec<u8>) -> (r: bool)
    ensures
        r == (a@ == b@),
{
    if a.len() != b.len() {
        return false;
    }
    let mut i: usize = 0;
    while i < a.len()
        invariant
            a@.len() == b@.len(),
            i <= a@.len(),
            forall|j: int| 0 <= j < i ==> a@[j] == b@[j],
        decreases a@.len() - i,
    {
        if a[i] != b[i] {
            return false;
        }
        i = i + 1;
    }
    assert(a@ =~= b@);
    true
}

/// Whether a name ends with `.rgb`.
pub fn ends_with_rgb(name: &str) -> (r: bool)
    ensures
        r == has_rgb_ext(name@),
{
    let n = name.unicode_len();
    if n < 4 {
        return false;
    }
    let r = name.get_char(n - 4) == '.' && name.get_char(n - 3) == 'r' && name.get_char(n - 2)
        == 'g' && name.get_char(n - 1) == 'b';
    let ghost tail = name@.subrange(n - 4, n as int);
    assert(r ==> tail =~= rgb_suffix());
    assert(tail == rgb_suffix() ==> tail[0] == '.' && tail[1] == 'r' && tail[2] == 'g' && tail[3]
        == 'b');
    r
}

/// The names among `entries` that carry the `.rgb` extension, in order.
pub fn rgb_file_names(entries: &Vec<String>) -> (r: Vec<String>)
    ensures
        string_views(r@) == rgb_names(string_views(entries@), entries@.len() as int),
{
    let mut out: Vec<String> = Vec::new();
    let mut i: usize = 0;
    while i < entries.len()
        invariant
            i <= entries@.len(),
            string_views(out@) == rgb_names(string_views(entries@), i as int),
        decreases entries@.len() - i,
    {
        let ghost names = string_views(entries@);
        if ends_with_rgb(entries[i].as_str()) {
            out.push(entries[i].clone());
            assert(string_views(out@) =~= rgb_names(names, i as int).push(names[i as int]));
        }
        i = i + 1;
    }
    out
}

impl DiskStorageConfig {
    /// The schema file names among the entries of the schemata directory.
    pub fn schema_names(&self, entries: &Vec<String>) -> (r: Vec<String>)
        ensures
            string_views(r@) == rgb_names(string_views(entries@), entries@.len() as int),
    {
        rgb_file_names(entries)
    }

    /// The genesis file names among the entries of the geneses directory.
    pub fn genesis_names(&self, entries: &Vec<String>) -> (r: Vec<String>)
        ensures
            string_views(r@) == rgb_names(string_views(entries@), entries@.len() as int),
    {
        rgb_file_names(entries)
    }
}

/// Keeps the contract data of the stash under one root directory.
#[derive(Debug)]
pub struct DiskStorage {
    config: DiskStorageConfig,
}

impl DiskStorage {
    pub closed spec fn root(&self) -> Seq<char> {
        self.config.data_dir@
    }

    /// The configuration the store was opened with.
    pub fn config(&self) -> (r: &DiskStorageConfig)
        ensures
            r.data_dir@ == self.root(),
    {
        &self.config
    }

    /// The root and the five kind directories under it.
    pub fn required_dirs(config: &DiskStorageConfig) -> (r: Vec<String>)
        ensures
            string_views(r@) == required_dirs_spec(config.data_dir@),
    {
        let mut r: Vec<String> = Vec::new();
        r.push(config.data_dir.clone());
        r.push(config.schemata_dir());
        r.push(config.geneses_dir());
        r.push(config.transitions_dir());
        r.push(config.extensions_dir());
        r.push(config.anchors_dir());
        assert(string_views(r@) =~= required_dirs_spec(config.data_dir@));
        r
    }

    /// Opens the store given what stands at each of `required_dirs`: fails
    /// with `Config` where one of them is not a directory, and otherwise
    /// returns the store with the directories that are still to be created.
    pub fn new(config: DiskStorageConfig, states: &Vec<PathState>) -> (r: Result<
        (DiskStorage, Vec<String>),
        DiskStorageError,
    >)
        requires
            states@.len() == 6,
        ensures
            blocked(states@) <==> r is Err,
            r matches Err(e) ==> e == DiskStorageError::Config,
            r matches Ok((s, dirs)) ==> s.root() == config.data_dir@ && string_views(dirs@)
                == missing_dirs(required_dirs_spec(config.data_dir@), states@, 6),
    {
        let all = DiskStorage::required_dirs(&config);
        let ghost dirs = required_dirs_spec(config.data_dir@);
        assert(string_views(all@).len() == all@.len());
        let mut missing: Vec<String> = Vec::new();
        let mut i: usize = 0;
        while i < 6
            invariant
                i <= 6,
                states@.len() == 6,
                all@.len() == 6,
                string_views(all@) == dirs,
                string_views(missing@) == missing_dirs(dirs, states@, i as int),
                forall|j: int| 0 <= j < i ==> states@[j] != PathState::NotDirectory,
            decreases 6 - i,
        {
            match states[i] {
                PathState::NotDirectory => {
                    return Err(DiskStorageError::Config);
                },
                PathState::Missing => {
                    missing.push(all[i].clone());
                    assert(string_views(missing@) =~= missing_dirs(dirs, states@, i as int).push(
                        dirs[i as int],
                    ));
                },
                PathState::Directory => {},
            }
            i = i + 1;
        }
        Ok((DiskStorage { config }, missing))
    }

    /// The schema identifiers named by the `.rgb` files among `entries`, in
    /// order; `Corrupt` where one of their stems is not a schema identifier.
    pub fn schema_ids(&self, entries: &Vec<String>) -> (r: Result<Vec<SchemaId>, DiskStorageError>)
        ensures
            ({
                let names = rgb_names(string_views(entries@), entries@.len() as int);
                &&& r is Ok <==> schema_stems_parse(names, names.len() as int)
                &&& r matches Err(e) ==> e == DiskStorageError::Corrupt
                &&& r matches Ok(v) ==> v@.len() == names.len() && forall|i: int|
                    0 <= i < v@.len() ==> schema_id_from_bech32(stem(names[i])) == Some(
                        #[trigger] v@[i]@,
                    )
            }),
    {
        let names = rgb_file_names(entries);
        let ghost nv = string_views(names@);
        proof {
            lemma_rgb_names_ext(string_views(entries@), entries@.len() as int);
            assert(nv.len() == names@.len());
        }
        let mut out: Vec<SchemaId> = Vec::new();
        let mut i: usize = 0;
        while i < names.len()
            invariant
                i <= names@.len(),
                nv == string_views(names@),
                nv == rgb_names(string_views(entries@), entries@.len() as int),
                out@.len() == i,
                schema_stems_parse(nv, i as int),
                forall|j: int|
                    0 <= j < i ==> schema_id_from_bech32(stem(nv[j])) == Some(#[trigger] out@[j]@),
                forall|j: int| 0 <= j < nv.len() ==> has_rgb_ext(#[trigger] nv[j]),
            decreases names@.len() - i,
        {
            assert(nv[i as int] == names@[i as int]@);
            let n = names[i].unicode_len();
            let s = names[i].substring_char(0, n - 4);
            assert(s@ == stem(nv[i as int]));
            match parse_schema_id(s) {
                Some(id) => {
                    out.push(id);
                },
                None => {
                    assert(schema_id_from_bech32(stem(nv[i as int])) is None);
                    assert(!schema_stems_parse(nv, nv.len() as int));
                    return Err(DiskStorageError::Corrupt);
                },
            }
            i = i + 1;
        }
        Ok(out)
    }

    /// The contract identifiers named by the `.rgb` files among `entries`, in
    /// order; `Corrupt` where one of their stems is not a contract identifier.
    pub fn contract_ids(&self, entries: &Vec<String>) -> (r: Result<Vec<ContractId>, DiskStorageError>)
        ensures
            ({
                let names = rgb_names(string_views(entries@), entries@.len() as int);
                &&& r is Ok <==> contract_stems_parse(names, names.len() as int)
                &&& r matches Err(e) ==> e == DiskStorageError::Corrupt
                &&& r matches Ok(v) ==> v@.len() == names.len() && forall|i: int|
                    0 <= i < v@.len() ==> contract_id_from_bech32(stem(names[i])) == Some(
                        #[trigger] v@[i]@,
                    )
            }),
    {
        let names = rgb_file_names(entries);
        let ghost nv = string_views(names@);
        proof {
            lemma_rgb_names_ext(string_views(entries@), entries@.len() as int);
            assert(nv.len() == names@.len());
        }
        let mut out: Vec<ContractId> = Vec::new();
        let mut i: usize = 0;
        while i < names.len()
            invariant
                i <= names@.len(),
                nv == string_views(names@),
                nv == rgb_names(string_views(entries@), entries@.len() as int),
                out@.len() == i,
                contract_stems_parse(nv, i as int),
                forall|j: int|
                    0 <= j < i ==> contract_id_from_bech32(stem(nv[j])) == Some(#[trigger] out@[j]@),
                forall|j: int| 0 <= j < nv.len() ==> has_rgb_ext(#[trigger] nv[j]),
            decreases names@.len() - i,
        {
            assert(nv[i as int] == names@[i as int]@);
            let n = names[i].unicode_len();
            let s = names[i].substring_char(0, n - 4);
            assert(s@ == stem(nv[i as int]));
            match parse_contract_id(s) {
                Some(id) => {
                    out.push(id);
                },
                None => {
                    assert(contract_id_from_bech32(stem(nv[i as int])) is None);
                    assert(!contract_stems_parse(nv, nv.len() as int));
                    return Err(DiskStorageError::Corrupt);
                },
            }
            i = i + 1;
        }
        Ok(out)
    }

    /// The state transition identifiers named by the `.rgb` files among `entries`, in
    /// order; `Corrupt` where one of their stems is not 64 hexadecimal digits.
    pub fn transition_ids(&self, entries: &Vec<String>) -> (r: Result<Vec<NodeId>, DiskStorageError>)
        ensures
            ({
                let names = rgb_names(string_views(entries@), entries@.len() as int);
                &&& r is Ok <==> hex_stems_parse(names, names.len() as int)
                &&& r matches Err(e) ==> e == DiskStorageError::Corrupt
                &&& r matches Ok(v) ==> v@.len() == names.len() && forall|i: int|
                    0 <= i < v@.len() ==> id_from_hex(stem(names[i])) == Some(
                        #[trigger] v@[i]@,
                    )
            }),
    {
        let names = rgb_file_names(entries);
        let ghost nv = string_views(names@);
        proof {
            lemma_rgb_names_ext(string_views(entries@), entries@.len() as int);
            assert(nv.len() == names@.len());
        }
        let mut out: Vec<NodeId> = Vec::new();
        let mut i: usize = 0;
        while i < names.len()
            invariant
                i <= names@.len(),
                nv == string_views(names@),
                nv == rgb_names(string_views(entries@), entries@.len() as int),
                out@.len() == i,
                hex_stems_parse(nv, i as int),
                forall|j: int|
                    0 <= j < i ==> id_from_hex(stem(nv[j])) == Some(#[trigger] out@[j]@),
                forall|j: int| 0 <= j < nv.len() ==> has_rgb_ext(#[trigger] nv[j]),
            decreases names@.len() - i,
        {
            assert(nv[i as int] == names@[i as int]@);
            let n = names[i].unicode_len();
            let s = names[i].substring_char(0, n - 4);
            assert(s@ == stem(nv[i as int]));
            match id_from_hex_text(s) {
                Some(b) => {
                    out.push(NodeId { bytes: b });
                },
                None => {
                    assert(id_from_hex(stem(nv[i as int])) is None);
                    assert(!hex_stems_parse(nv, nv.len() as int));
                    return Err(DiskStorageError::Corrupt);
                },
            }
            i = i + 1;
        }
        Ok(out)
    }

    /// The state extension identifiers named by the `.rgb` files among `entries`, in
    /// order; `Corrupt` where one of their stems is not 64 hexadecimal digits.
    pub fn extension_ids(&self, entries: &Vec<String>) -> (r: Result<Vec<NodeId>, DiskStorageError>)
        ensures
            ({
                let names = rgb_names(string_views(entries@), entries@.len() as int);
                &&& r is Ok <==> hex_stems_parse(names, names.len() as int)
                &&& r matches Err(e) ==> e == DiskStorageError::Corrupt
                &&& r matches Ok(v) ==> v@.len() == names.len() && forall|i: int|
                    0 <= i < v@.len() ==> id_from_hex(stem(names[i])) == Some(
                        #[trigger] v@[i]@,
                    )
            }),
    {
        let names = rgb_file_names(entries);
        let ghost nv = string_views(names@);
        proof {
            lemma_rgb_names_ext(string_views(entries@), entries@.len() as int);
            assert(nv.len() == names@.len());
        }
        let mut out: Vec<NodeId> = Vec::new();
        let mut i: usize = 0;
        while i < names.len()
            invariant
                i <= names@.len(),
                nv == string_views(names@),
                nv == rgb_names(string_views(entries@), entries@.len() as int),
                out@.len() == i,
                hex_stems_parse(nv, i as int),
                forall|j: int|
                    0 <= j < i ==> id_from_hex(stem(nv[j])) == Some(#[trigger] out@[j]@),
                forall|j: int| 0 <= j < nv.len() ==> has_rgb_ext(#[trigger] nv[j]),
            decreases names@.len() - i,
        {
            assert(nv[i as int] == names@[i as int]@);
            let n = names[i].unicode_len();
            let s = names[i].substring_char(0, n - 4);
            assert(s@ == stem(nv[i as int]));
            match id_from_hex_text(s) {
                Some(b) => {
                    out.push(NodeId { bytes: b });
                },
                None => {
                    assert(id_from_hex(stem(nv[i as int])) is None);
                    assert(!hex_stems_parse(nv, nv.len() as int));
                    return Err(DiskStorageError::Corrupt);
                },
            }
            i = i + 1;
        }
        Ok(out)
    }

    /// The anchor identifiers named by the `.rgb` files among `entries`, in
    /// order; `Corrupt` where one of their stems is not 64 hexadecimal digits.
    pub fn anchor_ids(&self, entries: &Vec<String>) -> (r: Result<Vec<AnchorId>, DiskStorageError>)
        ensures
            ({
                let names = rgb_names(string_views(entries@), entries@.len() as int);
                &&& r is Ok <==> hex_stems_parse(names, names.len() as int)
                &&& r matches Err(e) ==> e == DiskStorageError::Corrupt
                &&& r matches Ok(v) ==> v@.len() == names.len() && forall|i: int|
                    0 <= i < v@.len() ==> id_from_hex(stem(names[i])) == Some(
                        #[trigger] v@[i]@,
                    )
            }),
    {
        let names = rgb_file_names(entries);
        let ghost nv = string_views(names@);
        proof {
            lemma_rgb_names_ext(string_views(entries@), entries@.len() as int);
            assert(nv.len() == names@.len());
        }
        let mut out: Vec<AnchorId> = Vec::new();
        let mut i: usize = 0;
        while i < names.len()
            invariant
                i <= names@.len(),
                nv == string_views(names@),
                nv == rgb_names(string_views(entries@), entries@.len() as int),
                out@.len() == i,
                hex_stems_parse(nv, i as int),
                forall|j: int|
                    0 <= j < i ==> id_from_hex(stem(nv[j])) == Some(#[trigger] out@[j]@),
                forall|j: int| 0 <= j < nv.len() ==> has_rgb_ext(#[trigger] nv[j]),
            decreases names@.len() - i,
        {
            assert(nv[i as int] == names@[i as int]@);
            let n = names[i].unicode_len();
            let s = names[i].substring_char(0, n - 4);
            assert(s@ == stem(nv[i as int]));
            match id_from_hex_text(s) {
                Some(b) => {
                    out.push(AnchorId { bytes: b });
                },
                None => {
                    assert(id_from_hex(stem(nv[i as int])) is None);
                    assert(!hex_stems_parse(nv, nv.len() as int));
                    return Err(DiskStorageError::Corrupt);
                },
            }
            i = i + 1;
        }
        Ok(out)
    }

    /// The identifier of a schema, the path it is stored at and the bytes
    /// stored there; `Corrupt` where it does not encode.
    pub fn schema_record(&self, schema: &rgb::Schema) -> (r: Result<(
        SchemaId,
        String,
        Vec<u8>,
    ), DiskStorageError>)
        ensures
            r is Ok <==> schema_encoding(*schema) is Some,
            r matches Ok((id, path, b)) ==> {
                &&& schema_encoding(*schema) == Some(b@)
                &&& id@ == schema_id_of_encoding(b@)
                &&& path@ == artifact_path(self.root(), ArtifactKind::Schema, schema_id_bech32(id@))
            },
            r matches Err(e) ==> e == DiskStorageError::Corrupt,
    {
        match encode_schema(schema) {
            Some(bytes) => {
                let id = schema_id_from_encoding(&bytes);
                let path = self.config.schema_filename(&id);
                Ok((id, path, bytes))
            },
            None => Err(DiskStorageError::Corrupt),
        }
    }

    /// A schema read back from the file at its path: `NotFound` where
    /// there is no file, `Corrupt` where its bytes do not decode.
    pub fn schema(&self, contents: &Option<Vec<u8>>) -> (r: Result<rgb::Schema, DiskStorageError>)
        ensures
            contents is None ==> (r matches Err(e) && e == DiskStorageError::NotFound),
            contents matches Some(b) ==> (r is Ok <==> schema_decodes(b@)),
            contents is Some ==> (r matches Err(e) ==> e == DiskStorageError::Corrupt),
    {
        match contents {
            None => Err(DiskStorageError::NotFound),
            Some(b) => match decode_schema(b) {
                Some(x) => Ok(x),
                None => Err(DiskStorageError::Corrupt),
            },
        }
    }

    /// The identifier of a genesis, the path it is stored at and the bytes
    /// stored there; `Corrupt` where it does not encode.
    pub fn genesis_record(&self, genesis: &rgb::Genesis) -> (r: Result<(
        ContractId,
        String,
        Vec<u8>,
    ), DiskStorageError>)
        ensures
            r is Ok <==> genesis_encoding(*genesis) is Some,
            r matches Ok((id, path, b)) ==> {
                &&& genesis_encoding(*genesis) == Some(b@)
                &&& id@ == genesis_contract_id(*genesis)
                &&& path@ == artifact_path(self.root(), ArtifactKind::Genesis, contract_id_bech32(id@))
            },
            r matches Err(e) ==> e == DiskStorageError::Corrupt,
    {
        match encode_genesis(genesis) {
            Some(bytes) => {
                let id = contract_id_of(genesis);
                let path = self.config.genesis_filename(&id);
                Ok((id, path, bytes))
            },
            None => Err(DiskStorageError::Corrupt),
        }
    }

    /// A genesis read back from the file at its path: `NotFound` where
    /// there is no file, `Corrupt` where its bytes do not decode.
    pub fn genesis(&self, contents: &Option<Vec<u8>>) -> (r: Result<rgb::Genesis, DiskStorageError>)
        ensures
            contents is None ==> (r matches Err(e) && e == DiskStorageError::NotFound),
            contents matches Some(b) ==> (r is Ok <==> genesis_decodes(b@)),
            contents is Some ==> (r matches Err(e) ==> e == DiskStorageError::Corrupt),
    {
        match contents {
            None => Err(DiskStorageError::NotFound),
            Some(b) => match decode_genesis(b) {
                Some(x) => Ok(x),
                None => Err(DiskStorageError::Corrupt),
            },
        }
    }

    /// The identifier of a state transition, the path it is stored at and the bytes
    /// stored there; `Corrupt` where it does not encode.
    pub fn transition_record(&self, transition: &rgb::Transition) -> (r: Result<(
        NodeId,
        String,
        Vec<u8>,
    ), DiskStorageError>)
        ensures
            r is Ok <==> transition_encoding(*transition) is Some,
            r matches Ok((id, path, b)) ==> {
                &&& transition_encoding(*transition) == Some(b@)
                &&& id@ == transition_node_id(*transition)
                &&& path@ == artifact_path(self.root(), ArtifactKind::Transition, id_hex(id@))
            },
            r matches Err(e) ==> e == DiskStorageError::Corrupt,
    {
        match encode_transition(transition) {
            Some(bytes) => {
                let id = transition_id_of(transition);
                let path = self.config.transition_filename(&id);
                Ok((id, path, bytes))
            },
            None => Err(DiskStorageError::Corrupt),
        }
    }

    /// A state transition read back from the file at its path: `NotFound` where
    /// there is no file, `Corrupt` where its bytes do not decode.
    pub fn transition(&self, contents: &Option<Vec<u8>>) -> (r: Result<rgb::Transition, DiskStorageError>)
        ensures
            contents is None ==> (r matches Err(e) && e == DiskStorageError::NotFound),
            contents matches Some(b) ==> (r is Ok <==> transition_decodes(b@)),
            contents is Some ==> (r matches Err(e) ==> e == DiskStorageError::Corrupt),
    {
        match contents {
            None => Err(DiskStorageError::NotFound),
            Some(b) => match decode_transition(b) {
                Some(x) => Ok(x),
                None => Err(DiskStorageError::Corrupt),
            },
        }
    }

    /// The identifier of a state extension, the path it is stored at and the bytes
    /// stored there; `Corrupt` where it does not encode.
    pub fn extension_record(&self, extension: &rgb::Extension) -> (r: Result<(
        NodeId,
        String,
        Vec<u8>,
    ), DiskStorageError>)
        ensures
            r is Ok <==> extension_encoding(*extension) is Some,
            r matches Ok((id, path, b)) ==> {
                &&& extension_encoding(*extension) == Some(b@)
                &&& id@ == extension_node_id(*extension)
                &&& path@ == artifact_path(self.root(), ArtifactKind::Extension, id_hex(id@))
            },
            r matches Err(e) ==> e == DiskStorageError::Corrupt,
    {
        match encode_extension(extension) {
            Some(bytes) => {
                let id = extension_id_of(extension);
                let path = self.config.extension_filename(&id);
                Ok((id, path, bytes))
            },
            None => Err(DiskStorageError::Corrupt),
        }
    }

    /// A state extension read back from the file at its path: `NotFound` where
    /// there is no file, `Corrupt` where its bytes do not decode.
    pub fn extension(&self, contents: &Option<Vec<u8>>) -> (r: Result<rgb::Extension, DiskStorageError>)
        ensures
            contents is None ==> (r matches Err(e) && e == DiskStorageError::NotFound),
            contents matches Some(b) ==> (r is Ok <==> extension_decodes(b@)),
            contents is Some ==> (r matches Err(e) ==> e == DiskStorageError::Corrupt),
    {
        match contents {
            None => Err(DiskStorageError::NotFound),
            Some(b) => match decode_extension(b) {
                Some(x) => Ok(x),
                None => Err(DiskStorageError::Corrupt),
            },
        }
    }

    /// What `put` of `bytes` at `path` does, given the file found there: a
    /// new file is written to `<path>.tmp-<token>` and renamed onto `path`;
    /// an equal file is left alone and reported as already there; a
    /// different file is `Corrupt`.
    pub fn put_plan(
        &self,
        path: &str,
        bytes: &Vec<u8>,
        existing: &Option<Vec<u8>>,
        token: &str,
    ) -> (r: Result<PutPlan, DiskStorageError>)
        ensures
            match r {
                Ok(p) => {
                    &&& put_outcome(bytes@, opt_bytes(*existing)) == Ok::<bool, DiskStorageError>(
                        p.existed,
                    )
                    &&& (p.write is None <==> p.existed)
                    &&& (p.write matches Some(w) ==> w.final_path@ == path@ && w.tmp_path@
                        == tmp_path_of(path@, token@))
                },
                Err(e) => put_outcome(bytes@, opt_bytes(*existing)) == Err::<bool, DiskStorageError>(
                    e,
                ),
            },
    {
        match existing {
            None => {
                let mut tmp = String::from_str(path);
                proof {
                    reveal_strlit(".tmp-");
                }
                tmp.append(".tmp-");
                tmp.append(token);
                Ok(PutPlan { existed: false, write: Some(WritePlan { tmp_path: tmp, final_path: String::from_str(path) }) })
            },
            Some(e) => {
                if bytes_eq(e, bytes) {
                    Ok(PutPlan { existed: true, write: None })
                } else {
                    Err(DiskStorageError::Corrupt)
                }
            },
        }
    }

    /// What `remove` at `path` does: unlink the file where there is one, and
    /// report whether there was. A missing file is no error.
    pub fn remove_plan(&self, path: &str, exists: bool) -> (r: RemovePlan)
        ensures
            r.existed == exists,
            exists ==> (r.unlink matches Some(u) && u@ == path@),
            !exists ==> r.unlink is None,
    {
        if exists {
            RemovePlan { existed: true, unlink: Some(String::from_str(path)) }
        } else {
            RemovePlan { existed: false, unlink: None }
        }
    }

    /// What `get` yields, given the file found at the artifact's path: its
    /// bytes, or `NotFound`.
    pub fn read_result(&self, contents: Option<Vec<u8>>) -> (r: Result<Vec<u8>, DiskStorageError>)
        ensures
            match contents {
                Some(b) => r == Ok::<Vec<u8>, DiskStorageError>(b),
                None => r == Err::<Vec<u8>, DiskStorageError>(DiskStorageError::NotFound),
            },
    {
        match contents {
            Some(b) => Ok(b),
            None => Err(DiskStorageError::NotFound),
        }
    }
}

} // verus!

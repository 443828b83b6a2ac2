//! File maps: flattened path-to-metadata maps and the changes made to them.
//!
//! A `FilesMap` maps file paths to `FileInfo` metadata records; a
//! `FilesMapChange` records what an upload did to one entry.  The lookup,
//! chroot and link-extraction helpers here are the pure part of the file
//! API; reading disks and uploading content stay outside the core.

use vstd::prelude::*;

use crate::error::Error;

verus! {

/// The XOR-URL of stored content.
pub type XorUrl = String;

/// Type of change made to each item of a files map.
#[derive(Debug)]
pub enum FilesMapChange {
    Added(XorUrl),
    Updated(XorUrl),
    Removed(XorUrl),
    Failed(String),
}

impl FilesMapChange {
    /// Whether the change went through; only a failure did not.
    pub fn is_success(&self) -> (r: bool)
        ensures
            r == !(self is Failed),
    {
        match self {
            Self::Added(_) | Self::Updated(_) | Self::Removed(_) => true,
            Self::Failed(_) => false,
        }
    }

    /// The link the change concerns, when it went through.
    pub fn link(&self) -> (r: Option<&XorUrl>)
        ensures
            r is Some <==> !(self is Failed),
            r matches Some(l) ==> (match self {
                Self::Added(u) | Self::Updated(u) | Self::Removed(u) => l == u,
                Self::Failed(_) => false,
            }),
    {
        match self {
            Self::Added(link) | Self::Updated(link) | Self::Removed(link) => Some(link),
            Self::Failed(_) => None,
        }
    }

    /// Whether the entry was newly added.
    pub fn is_added(&self) -> (r: bool)
        ensures
            r == (self is Added),
    {
        match self {
            Self::Added(_) => true,
            Self::Updated(_) | Self::Removed(_) | Self::Failed(_) => false,
        }
    }

    /// Whether the entry replaced an existing one.
    pub fn is_updated(&self) -> (r: bool)
        ensures
            r == (self is Updated),
    {
        match self {
            Self::Updated(_) => true,
            Self::Added(_) | Self::Removed(_) | Self::Failed(_) => false,
        }
    }

    /// Whether the entry was removed.
    pub fn is_removed(&self) -> (r: bool)
        ensures
            r == (self is Removed),
    {
        match self {
            Self::Removed(_) => true,
            Self::Added(_) | Self::Updated(_) | Self::Failed(_) => false,
        }
    }
}

/// One file's metadata: a small string-to-string record.
#[derive(Debug)]
pub struct FileInfo {
    pub entries: Vec<(String, String)>,
}

impl FileInfo {
    /// Keys occur at most once.
    pub open spec fn wf(&self) -> bool {
        forall|i: int, j: int|
            0 <= i < j < self.entries@.len() ==> (#[trigger] self.entries@[i]).0@ != (
            #[trigger] self.entries@[j]).0@
    }

    /// An empty record.
    pub fn new() -> (r: FileInfo)
        ensures
            r.wf(),
            r.entries@.len() == 0,
    {
        FileInfo { entries: Vec::new() }
    }

    /// The value stored under `key`, if any.
    pub fn get(&self, key: &str) -> (r: Option<&String>)
        ensures
            r is Some <==> (exists|i: int|
                0 <= i < self.entries@.len() && (#[trigger] self.entries@[i]).0@ == key@),
            r matches Some(v) ==> exists|i: int|
                0 <= i < self.entries@.len() && (#[trigger] self.entries@[i]).0@ == key@
                    && self.entries@[i].1 == *v,
    {
        let n: usize = self.entries.len();
        let mut i: usize = 0;
        while i < n
            invariant
                0 <= i <= n,
                n == self.entries@.len(),
                forall|j: int| 0 <= j < i ==> (#[trigger] self.entries@[j]).0@ != key@,
            decreases n - i,
        {
            if str_eq(self.entries[i].0.as_str(), key) {
                return Some(&self.entries[i].1);
            }
            i += 1;
        }
        None
    }

    /// Stores `value` under `key`, replacing any previous value.
    pub fn insert(&mut self, key: String, value: String)
        requires
            old(self).wf(),
        ensures
            final(self).wf(),
            exists|i: int|
                0 <= i < final(self).entries@.len() && (#[trigger] final(self).entries@[i]).0@
                    == key@ && final(self).entries@[i].1 == value,
            forall|j: int|
                0 <= j < final(self).entries@.len() && (#[trigger] final(self).entries@[j]).0@
                    != key@ ==> old(self).entries@.contains(final(self).entries@[j]),
    {
        let n: usize = self.entries.len();
        let mut i: usize = 0;
        while i < n
            invariant
                0 <= i <= n,
                n == self.entries@.len(),
                self.wf(),
                self.entries@ == old(self).entries@,
                forall|j: int| 0 <= j < i ==> (#[trigger] self.entries@[j]).0@ != key@,
            decreases n - i,
        {
            if str_eq(self.entries[i].0.as_str(), key.as_str()) {
                self.entries[i] = (key, value);
                proof {
                    assert(forall|j: int|
                        0 <= j < self.entries@.len() && j != i ==> self.entries@[j] == old(
                            self,
                        ).entries@[j]);
                    assert((#[trigger] self.entries@[i as int]).0@ == key@);
                }
                return ;
            }
            i += 1;
        }
        self.entries.push((key, value));
        proof {
            assert((#[trigger] self.entries@[self.entries@.len() - 1]).0@ == key@);
            assert(forall|j: int|
                0 <= j < self.entries@.len() - 1 ==> self.entries@[j] == old(self).entries@[j]);
        }
    }

    /// A field-for-field copy of the record.
    pub fn clone_info(&self) -> (r: FileInfo)
        ensures
            r.entries@ == self.entries@,
            self.wf() ==> r.wf(),
    {
        let mut entries: Vec<(String, String)> = Vec::new();
        let n: usize = self.entries.len();
        let mut i: usize = 0;
        while i < n
            invariant
                0 <= i <= n,
                n == self.entries@.len(),
                entries@.len() == i,
                forall|j: int| 0 <= j < i ==> #[trigger] entries@[j] == self.entries@[j],
            decreases n - i,
        {
            let k = self.entries[i].0.clone();
            let v = self.entries[i].1.clone();
            entries.push((k, v));
            proof {
                assert(entries@[i as int] == self.entries@[i as int]);
            }
            i += 1;
        }
        proof {
            assert(entries@ =~= self.entries@);
        }
        FileInfo { entries }
    }
}

/// A trait to get a key attribute and return an API result.
pub trait GetAttr {
    /// The value stored under `key`, or the entry-not-found error.
    fn getattr(&self, key: &str) -> Result<&str, Error>;
}

impl GetAttr for FileInfo {
    /// Makes it readable to conditionally pull one attribute of a record.
    fn getattr(&self, key: &str) -> Result<&str, Error> {
        match self.get(key) {
            Some(v) => Ok(v.as_str()),
            None => {
                let mut msg = String::from_str("key not found: ");
                msg.append(key);
                Err(Error::EntryNotFound(msg))
            },
        }
    }
}

/// A map of file paths (in a flattened hierarchy) to their metadata.
#[derive(Debug)]
pub struct FilesMap {
    pub entries: Vec<(String, FileInfo)>,
}

impl FilesMap {
    /// Paths occur at most once, and every record is well-formed.
    pub open spec fn wf(&self) -> bool {
        &&& forall|i: int, j: int|
            0 <= i < j < self.entries@.len() ==> (#[trigger] self.entries@[i]).0@ != (
            #[trigger] self.entries@[j]).0@
        &&& forall|i: int| 0 <= i < self.entries@.len() ==> (#[trigger] self.entries@[i]).1.wf()
    }

    /// An empty map.
    pub fn new() -> (r: FilesMap)
        ensures
            r.wf(),
            r.entries@.len() == 0,
    {
        FilesMap { entries: Vec::new() }
    }

    /// The record stored under `path`, if any.
    pub fn get(&self, path: &str) -> (r: Option<&FileInfo>)
        ensures
            r is Some <==> (exists|i: int|
                0 <= i < self.entries@.len() && (#[trigger] self.entries@[i]).0@ == path@),
            r matches Some(v) ==> exists|i: int|
                0 <= i < self.entries@.len() && (#[trigger] self.entries@[i]).0@ == path@
                    && self.entries@[i].1 == *v,
            (match r {
                Some(v) => self.wf() ==> v.wf(),
                None => true,
            }),
    {
        let n: usize = self.entries.len();
        let mut i: usize = 0;
        while i < n
            invariant
                0 <= i <= n,
                n == self.entries@.len(),
                forall|j: int| 0 <= j < i ==> (#[trigger] self.entries@[j]).0@ != path@,
            decreases n - i,
        {
            if str_eq(self.entries[i].0.as_str(), path) {
                return Some(&self.entries[i].1);
            }
            i += 1;
        }
        None
    }

    /// Stores a record under `path`, replacing any previous one.
    #[verifier::loop_isolation(false)]
    pub fn insert(&mut self, path: String, info: FileInfo)
        requires
            old(self).wf(),
            info.wf(),
        ensures
            final(self).wf(),
            exists|i: int|
                0 <= i < final(self).entries@.len() && (#[trigger] final(self).entries@[i]).0@
                    == path@ && final(self).entries@[i].1 == info,
    {
        let n: usize = self.entries.len();
        let mut i: usize = 0;
        while i < n
            invariant
                0 <= i <= n,
                n == self.entries@.len(),
                self.wf(),
                self.entries@ == old(self).entries@,
                forall|j: int| 0 <= j < i ==> (#[trigger] self.entries@[j]).0@ != path@,
            decreases n - i,
        {
            if str_eq(self.entries[i].0.as_str(), path.as_str()) {
                let ghost ginfo = info;
                self.entries[i] = (path, info);
                proof {
                    assert((#[trigger] self.entries@[i as int]).0@ == path@);
                    assert(forall|j: int|
                        0 <= j < self.entries@.len() && j != i ==> self.entries@[j] == old(
                            self,
                        ).entries@[j]);
                    assert(self.entries@[i as int].1 == ginfo);
                    assert(ginfo.wf());
                    assert forall|j: int|
                        0 <= j < self.entries@.len() implies (
                    #[trigger] self.entries@[j]).1.wf() by {
                        if j != i {
                            assert(self.entries@[j] == old(self).entries@[j]);
                            assert(old(self).entries@[j].1.wf());
                        } else {
                            assert(self.entries@[j].1 == ginfo);
                        }
                    }
                }
                return ;
            }
            i += 1;
        }
        self.entries.push((path, info));
        proof {
            assert((#[trigger] self.entries@[self.entries@.len() - 1]).0@ == path@);
            assert(forall|j: int|
                0 <= j < self.entries@.len() - 1 ==> self.entries@[j] == old(self).entries@[j]);
            assert forall|j: int|
                0 <= j < self.entries@.len() implies (#[trigger] self.entries@[j]).1.wf() by {
                if j < self.entries@.len() - 1 {
                    assert(self.entries@[j] == old(self).entries@[j]);
                }
            }
        }
    }
}

/// Character-for-character equality of two strings.
pub fn str_eq(a: &str, b: &str) -> (r: bool)
    ensures
        r == (a@ == b@),
{
    let na: usize = a.unicode_len();
    let nb: usize = b.unicode_len();
    if na != nb {
        proof {
            assert(a@ !~= b@);
        }
        return false;
    }
    let mut i: usize = 0;
    while i < na
        invariant
            0 <= i <= na,
            na == a@.len() == b@.len(),
            forall|j: int| 0 <= j < i ==> a@[j] == b@[j],
        decreases na - i,
    {
        if a.get_char(i) != b.get_char(i) {
            return false;
        }
        i += 1;
    }
    proof {
        assert(a@ =~= b@);
    }
    true
}

/// Whether `s` begins with `p`.
pub fn str_starts_with(s: &str, p: &str) -> (r: bool)
    ensures
        r == (p@.len() <= s@.len() && s@.take(p@.len() as int) == p@),
{
    let ns: usize = s.unicode_len();
    let np: usize = p.unicode_len();
    if np > ns {
        return false;
    }
    let mut i: usize = 0;
    while i < np
        invariant
            0 <= i <= np <= ns,
            ns == s@.len(),
            np == p@.len(),
            forall|j: int| 0 <= j < i ==> s@[j] == p@[j],
        decreases np - i,
    {
        if s.get_char(i) != p.get_char(i) {
            proof {
                if s@.take(np as int) == p@ {
                    assert(s@.take(np as int)[i as int] == s@[i as int]);
                }
            }
            return false;
        }
        i += 1;
    }
    proof {
        assert(s@.take(np as int) =~= p@);
    }
    true
}

/// The file-type value that marks a directory.
pub open spec fn spec_dir_type() -> Seq<char> {
    "inode/directory"@
}

/// The file-type value that marks a symlink.
pub open spec fn spec_symlink_type() -> Seq<char> {
    "inode/symlink"@
}

/// Whether a type value names a symlink.
pub fn filetype_is_symlink(file_type: &str) -> (r: bool)
    ensures
        r == (file_type@ == spec_symlink_type()),
{
    str_eq(file_type, "inode/symlink")
}

/// Whether a type value names a plain file: neither a directory nor a
/// symlink.
pub fn filetype_is_file(file_type: &str) -> (r: bool)
    ensures
        r == (file_type@ != spec_dir_type() && file_type@ != spec_symlink_type()),
{
    !str_eq(file_type, "inode/directory") && !str_eq(file_type, "inode/symlink")
}

/// Adds or updates one uploaded file's entry, keyed by its map path, and
/// records the change under the file's own name.
///
/// The caller hands in the generated record or the upload failure; a
/// failure only records the change, a success also replaces the map entry.
/// The answer says whether the map itself changed.
pub fn add_or_update_file_item(
    file_name: &str,
    file_name_for_map: &str,
    new_file_item: Result<FileInfo, String>,
    name_exists: bool,
    files_map: &mut FilesMap,
    processed_files: &mut Vec<(String, FilesMapChange)>,
) -> (r: bool)
    requires
        old(files_map).wf(),
        new_file_item matches Ok(item) ==> item.wf(),
    ensures
        final(files_map).wf(),
        r == (new_file_item is Ok),
        final(processed_files)@.len() == old(processed_files)@.len() + 1,
        forall|i: int|
            0 <= i < old(processed_files)@.len() ==> final(processed_files)@[i]
                == old(processed_files)@[i],
        new_file_item is Err ==> *final(files_map) == *old(files_map) && (match final(processed_files)@.last().1 {
            FilesMapChange::Failed(m) => m@ == new_file_item->Err_0@,
            _ => false,
        }),
        new_file_item is Ok ==> (exists|i: int|
            0 <= i < final(files_map).entries@.len()
                && (#[trigger] final(files_map).entries@[i]).0@ == file_name_for_map@
                && final(files_map).entries@[i].1 == new_file_item->Ok_0) && (
        if name_exists {
            final(processed_files)@.last().1 is Updated
        } else {
            final(processed_files)@.last().1 is Added
        }),
        final(processed_files)@.last().0@ == file_name@,
        new_file_item matches Ok(item) ==> (match final(processed_files)@.last().1 {
            FilesMapChange::Added(u) | FilesMapChange::Updated(u) => (exists|k: int|
                0 <= k < item.entries@.len() && (#[trigger] item.entries@[k]).0@ == "link"@
                    && item.entries@[k].1 == u) || ((forall|k: int|
                0 <= k < item.entries@.len() ==> (#[trigger] item.entries@[k]).0@ != "link"@)
                && u@ == Seq::<char>::empty()),
            _ => false,
        }),
{
    match new_file_item {
        Ok(item) => {
            // files carry a link; directories and symlinks do not
            let xorurl: String = match item.get("link") {
                Some(link) => link.clone(),
                None => String::new(),
            };
            let file_item_change = if name_exists {
                FilesMapChange::Updated(xorurl)
            } else {
                FilesMapChange::Added(xorurl)
            };
            files_map.insert(String::from_str(file_name_for_map), item);
            processed_files.push((String::from_str(file_name), file_item_change));
            true
        },
        Err(err) => {
            processed_files.push((String::from_str(file_name), FilesMapChange::Failed(err)));
            false
        },
    }
}

/// Builds the metadata record for one file from what the caller read off
/// the file system: the base record, whether it is a file or a symlink,
/// the link of an uploaded file, and a symlink's target and target type.
pub fn gen_new_file_item(
    base_item: FileInfo,
    is_file: bool,
    link: Option<String>,
    is_symlink: bool,
    symlink_target: Option<String>,
    symlink_target_type: Option<String>,
) -> (r: FileInfo)
    requires
        base_item.wf(),
    ensures
        r.wf(),
        is_file && link is Some ==> exists|i: int|
            0 <= i < r.entries@.len() && (#[trigger] r.entries@[i]).0@ == "link"@
                && r.entries@[i].1 == link->Some_0,
        !is_file && is_symlink && symlink_target is Some ==> exists|i: int|
            0 <= i < r.entries@.len() && (#[trigger] r.entries@[i]).0@ == "symlink_target"@
                && r.entries@[i].1 == symlink_target->Some_0,
        (!(is_file && link is Some) && !(!is_file && is_symlink && symlink_target is Some))
            ==> r == base_item,
        forall|x: int|
            0 <= x < r.entries@.len() && (#[trigger] r.entries@[x]).0@ != "link"@
                && r.entries@[x].0@ != "symlink_target"@ && r.entries@[x].0@
                != "symlink_target_type"@ ==> base_item.entries@.contains(r.entries@[x]),
{
    let mut file_item = base_item;
    let ghost base = file_item;
    if is_file {
        match link {
            Some(url) => {
                proof {
                    reveal_strlit("link");
                }
                file_item.insert(String::from_str("link"), url);
            },
            None => {},
        }
    } else if is_symlink {
        match symlink_target {
            Some(target) => {
                proof {
                    reveal_strlit("symlink_target");
                    reveal_strlit("symlink_target_type");
                }
                let ghost mid0 = file_item;
                match symlink_target_type {
                    Some(t) => {
                        file_item.insert(String::from_str("symlink_target_type"), t);
                    },
                    None => {},
                }
                let ghost mid = file_item;
                file_item.insert(String::from_str("symlink_target"), target);
                proof {
                    assert forall|x: int|
                        0 <= x < file_item.entries@.len() && (
                    #[trigger] file_item.entries@[x]).0@ != "link"@ && file_item.entries@[x].0@
                        != "symlink_target"@ && file_item.entries@[x].0@
                        != "symlink_target_type"@ implies base.entries@.contains(
                        file_item.entries@[x],
                    ) by {
                        assert(mid.entries@.contains(file_item.entries@[x]));
                        let y = choose|y: int|
                            0 <= y < mid.entries@.len() && mid.entries@[y] == file_item.entries@[x];
                        assert(mid.entries@[y].0@ != "symlink_target_type"@);
                        assert(base.entries@.contains(mid.entries@[y]));
                    }
                }
            },
            None => {},
        }
    }
    file_item
}

/// Returns the map scoped to `path`: the whole map when the path is a
/// plain file, an error when it is a symlink or its record is corrupt, and
/// the chroot of the map under the path otherwise.
///
/// The path is matched against the entry keys as given; resolving a chain
/// of symlinked paths to a real one is the calling layer's step.
pub fn file_map_for_path(files_map: FilesMap, path: &str) -> (r: Result<FilesMap, Error>)
    requires
        files_map.wf(),
    ensures
        r matches Ok(m) ==> m.wf(),
        r matches Err(e) ==> e is ContentError,
        (forall|j: int|
            0 <= j < files_map.entries@.len() ==> (#[trigger] files_map.entries@[j]).0@ != path@)
            ==> spec_chroot_post(path@, files_map, r),
{
    let found = match files_map.get(path) {
        Some(file_info) => {
            let t = match file_info.get("type") {
                Some(v) => v.clone(),
                None => {
                    return Err(
                        Error::ContentError(
                            String::from_str("corrupt file record: missing a type property"),
                        ),
                    );
                },
            };
            if filetype_is_symlink(t.as_str()) {
                return Err(
                    Error::ContentError(
                        String::from_str("symlink should not be present in resolved real path"),
                    ),
                );
            }
            filetype_is_file(t.as_str())
        },
        None => false,
    };
    if found {
        return Ok(files_map);
    }
    filesmap_chroot(path, &files_map)
}

/// Whether entry `j` of the map sits at `path`, carries `l` as its link,
/// and `info` is its record enriched with a name entry.
pub open spec fn spec_file_hit(
    fm: FilesMap,
    path: Seq<char>,
    l: String,
    info: FileInfo,
    j: int,
) -> bool {
    &&& 0 <= j < fm.entries@.len()
    &&& fm.entries@[j].0@ == path
    &&& exists|k: int|
        0 <= k < fm.entries@[j].1.entries@.len() && (#[trigger] fm.entries@[j].1.entries@[k]).0@
            == "link"@ && fm.entries@[j].1.entries@[k].1 == l
    &&& exists|x: int|
        0 <= x < info.entries@.len() && (#[trigger] info.entries@[x]).0@ == "name"@
    &&& forall|x: int|
        0 <= x < info.entries@.len() && (#[trigger] info.entries@[x]).0@ != "name"@
            ==> fm.entries@[j].1.entries@.contains(info.entries@[x])
}

/// Whether some entry of the map is hit at `path` with link `l` and
/// enriched record `info`.
pub open spec fn spec_file_hit_at(fm: FilesMap, path: Seq<char>, l: String, info: FileInfo) -> bool {
    exists|j: int| #[trigger] spec_file_hit(fm, path, l, info, j)
}

/// If a plain file sits at `path`, returns its link and its record
/// enriched with the file's own name; otherwise nothing.
///
/// The path is matched against the entry keys as given; resolving a chain
/// of symlinked paths to a real one is the calling layer's step.
pub fn get_file_link_and_metadata(files_map: &FilesMap, path: &str) -> (r: Result<
    (Option<String>, Option<FileInfo>),
    Error,
>)
    requires
        files_map.wf(),
    ensures
        path@.len() == 0 ==> (r matches Ok(p) && p.0 is None && p.1 is None),
        r matches Err(e) ==> e is ContentError,
        r matches Ok(p) ==> (p.0 is Some <==> p.1 is Some),
        (match r {
            Ok((_, Some(info))) => info.wf(),
            _ => true,
        }),
        (match r {
            Ok((Some(l), Some(info))) => spec_file_hit_at(*files_map, path@, l, info),
            _ => true,
        }),
{
    if path.unicode_len() == 0 {
        return Ok((None, None));
    }
    match files_map.get(path) {
        Some(file_info) => {
            let t = match file_info.get("type") {
                Some(v) => v.clone(),
                None => {
                    return Err(
                        Error::ContentError(
                            String::from_str("corrupt file record: missing a type property"),
                        ),
                    );
                },
            };
            if filetype_is_file(t.as_str()) {
                let link = match file_info.get("link") {
                    Some(v) => v.clone(),
                    None => {
                        return Err(
                            Error::ContentError(
                                String::from_str("corrupt file record: missing a link property"),
                            ),
                        );
                    },
                };
                let mut enriched = file_info.clone_info();
                let ghost cloned = enriched;
                let name = file_base_name(path);
                proof {
                    reveal_strlit("name");
                }
                enriched.insert(String::from_str("name"), name);
                proof {
                    let j = choose|j: int|
                        0 <= j < files_map.entries@.len() && (#[trigger] files_map.entries@[j]).0@
                            == path@ && files_map.entries@[j].1 == *file_info;
                    let k = choose|k: int|
                        0 <= k < file_info.entries@.len() && (
                        #[trigger] file_info.entries@[k]).0@ == "link"@
                            && file_info.entries@[k].1 == link;
                    assert(files_map.entries@[j].1.entries@[k].0@ == "link"@
                        && files_map.entries@[j].1.entries@[k].1 == link);
                    assert(exists|k2: int|
                        0 <= k2 < files_map.entries@[j].1.entries@.len() && (
                        #[trigger] files_map.entries@[j].1.entries@[k2]).0@ == "link"@
                            && files_map.entries@[j].1.entries@[k2].1 == link);
                    let x0 = choose|x0: int|
                        0 <= x0 < enriched.entries@.len() && (#[trigger] enriched.entries@[x0]).0@
                            == "name"@ && enriched.entries@[x0].1 == name;
                    assert(exists|x: int|
                        0 <= x < enriched.entries@.len() && (#[trigger] enriched.entries@[x]).0@
                            == "name"@);
                    assert forall|x: int|
                        0 <= x < enriched.entries@.len() && (#[trigger] enriched.entries@[x]).0@
                            != "name"@ implies files_map.entries@[j].1.entries@.contains(
                        enriched.entries@[x],
                    ) by {
                        assert(cloned.entries@.contains(enriched.entries@[x]));
                    }
                    assert(spec_file_hit(*files_map, path@, link, enriched, j));
                    assert(spec_file_hit_at(*files_map, path@, link, enriched));
                }
                return Ok((Some(link), Some(enriched)));
            }
            Ok((None, None))
        },
        None => Ok((None, None)),
    }
}

/// The final path component: everything after the last separator.
fn file_base_name(path: &str) -> (r: String)
    ensures
        true,
{
    let n: usize = path.unicode_len();
    let mut cut: usize = 0;
    let mut i: usize = 0;
    while i < n
        invariant
            0 <= i <= n,
            0 <= cut <= i,
            n == path@.len(),
        decreases n - i,
    {
        if path.get_char(i) == '/' {
            cut = i + 1;
        }
        i += 1;
    }
    path.substring_char(cut, n).to_owned()
}

/// The folder a chroot path denotes: the path itself when it already ends
/// with the separator, else the path with one appended.
pub open spec fn spec_chroot_folder(urlpath: Seq<char>) -> Seq<char> {
    if urlpath.len() > 0 && urlpath.last() == '/' {
        urlpath
    } else {
        urlpath.push('/')
    }
}

/// Whether entry `j` of the map sits under `folder`.
pub open spec fn spec_under_folder(fm: FilesMap, folder: Seq<char>, j: int) -> bool {
    &&& 0 <= j < fm.entries@.len()
    &&& folder.len() <= fm.entries@[j].0@.len()
    &&& fm.entries@[j].0@.take(folder.len() as int) == folder
}

/// How many of the first `upto` entries sit under `folder`.
pub open spec fn spec_count_under(fm: FilesMap, folder: Seq<char>, upto: int) -> int
    decreases upto,
{
    if upto <= 0 {
        0
    } else {
        spec_count_under(fm, folder, upto - 1) + if spec_under_folder(fm, folder, upto - 1) {
            1int
        } else {
            0int
        }
    }
}

/// Whether entry `k` of `m` is entry `j`'s stripped copy for some `j`
/// under the folder among the first `bound` entries of `fm`.
pub open spec fn spec_chroot_entry_from(
    fm: FilesMap,
    folder: Seq<char>,
    m: FilesMap,
    k: int,
    bound: int,
) -> bool {
    exists|j: int|
        0 <= j < bound && spec_under_folder(fm, folder, j) && (#[trigger] fm.entries@[j]).0@.skip(
            folder.len() as int,
        ) == m.entries@[k].0@ && fm.entries@[j].1.entries@ == m.entries@[k].1.entries@
}

/// What re-rooting a map under a path returns: an error exactly when no
/// entry sits under the folder; otherwise a well-formed map with exactly
/// one entry per input entry under the folder — each drawn from such an
/// entry, under its path with the folder front removed and with its record
/// unchanged.  Distinct keys plus the exact count make this one-to-one.
pub open spec fn spec_chroot_post(
    urlpath: Seq<char>,
    fm: FilesMap,
    r: Result<FilesMap, Error>,
) -> bool {
    let folder = spec_chroot_folder(urlpath);
    &&& (r is Ok <==> exists|j: int| spec_under_folder(fm, folder, j))
    &&& (match r {
        Ok(m) => {
            &&& m.wf()
            &&& m.entries@.len() >= 1
            &&& m.entries@.len() == spec_count_under(fm, folder, fm.entries@.len() as int)
            &&& forall|k: int|
                0 <= k < m.entries@.len() ==> spec_chroot_entry_from(
                    fm,
                    folder,
                    m,
                    k,
                    fm.entries@.len() as int,
                )
        },
        Err(e) => e is ContentError,
    })
}

/// A stripped copy drawn from the first `a` entries is drawn from the
/// first `b` as well.
proof fn lemma_chroot_entry_from_mono(
    fm: FilesMap,
    folder: Seq<char>,
    m: FilesMap,
    k: int,
    a: int,
    b: int,
)
    requires
        a <= b,
        spec_chroot_entry_from(fm, folder, m, k, a),
    ensures
        spec_chroot_entry_from(fm, folder, m, k, b),
{
    let j = choose|j: int|
        0 <= j < a && spec_under_folder(fm, folder, j) && (#[trigger] fm.entries@[j]).0@.skip(
            folder.len() as int,
        ) == m.entries@[k].0@ && fm.entries@[j].1.entries@ == m.entries@[k].1.entries@;
    assert(0 <= j < b && spec_under_folder(fm, folder, j) && fm.entries@[j].0@.skip(
        folder.len() as int,
    ) == m.entries@[k].0@ && fm.entries@[j].1.entries@ == m.entries@[k].1.entries@);
}

/// The map re-rooted under a folder: every entry whose path begins with
/// the folder (the given path, slash-terminated), under its path with that
/// front removed.
///
/// Fails exactly when no entry sits under the folder.
#[verifier::loop_isolation(false)]
#[verifier::rlimit(100)]
pub fn filesmap_chroot(urlpath: &str, files_map: &FilesMap) -> (r: Result<FilesMap, Error>)
    requires
        files_map.wf(),
    ensures
        spec_chroot_post(urlpath@, *files_map, r),
{
    let n: usize = urlpath.unicode_len();
    let ends_slash = if n > 0 {
        urlpath.get_char(n - 1) == '/'
    } else {
        false
    };
    let mut folder: String = urlpath.to_owned();
    if !ends_slash {
        folder.append("/");
        proof {
            reveal_strlit("/");
            assert(folder@ =~= urlpath@.push('/'));
        }
    }
    let flen: usize = folder.as_str().unicode_len();
    let mut filtered = FilesMap { entries: Vec::new() };
    let nm: usize = files_map.entries.len();
    let mut i: usize = 0;
    while i < nm
        invariant
            0 <= i <= nm,
            nm == files_map.entries@.len(),
            files_map.wf(),
            flen == folder@.len(),
            folder@ == spec_chroot_folder(urlpath@),
            filtered.wf(),
            filtered.entries@.len() == spec_count_under(*files_map, folder@, i as int),
            forall|k: int|
                0 <= k < filtered.entries@.len() ==> #[trigger] spec_chroot_entry_from(
                    *files_map,
                    folder@,
                    filtered,
                    k,
                    i as int,
                ),
        decreases nm - i,
    {
        let filepath: &String = &files_map.entries[i].0;
        if str_starts_with(filepath.as_str(), folder.as_str()) {
            let plen: usize = filepath.as_str().unicode_len();
            let new_path = filepath.as_str().substring_char(flen, plen).to_owned();
            let info = files_map.entries[i].1.clone_info();
            let ghost pre = filtered.entries@;
            let ghost pre_map = filtered;
            filtered.entries.push((new_path, info));
            proof {
                assert(new_path@ =~= files_map.entries@[i as int].0@.skip(flen as int));
                assert(forall|k: int|
                    0 <= k < pre.len() ==> #[trigger] filtered.entries@[k] == pre[k]);
                assert(spec_under_folder(*files_map, folder@, i as int));
                let last = filtered.entries@.len() - 1;
                assert(filtered.entries@[last].0@ == files_map.entries@[i as int].0@.skip(
                    flen as int,
                ));
                assert(filtered.entries@[last].1.entries@ == files_map.entries@[
                    i as int].1.entries@);
                assert forall|k: int|
                    0 <= k < filtered.entries@.len() implies #[trigger] spec_chroot_entry_from(
                    *files_map,
                    folder@,
                    filtered,
                    k,
                    i as int + 1,
                ) by {
                    if k == last {
                        assert(0 <= i as int && (i as int) < i as int + 1 && spec_under_folder(
                            *files_map,
                            folder@,
                            i as int,
                        ) && files_map.entries@[i as int].0@.skip(flen as int)
                            == filtered.entries@[k].0@ && files_map.entries@[i as int].1.entries@
                            == filtered.entries@[k].1.entries@);
                        assert(spec_chroot_entry_from(
                            *files_map,
                            folder@,
                            filtered,
                            k,
                            i as int + 1,
                        ));
                    } else {
                        assert(spec_chroot_entry_from(*files_map, folder@, filtered, k, i as int))
                            by {
                            assert(spec_chroot_entry_from(*files_map, folder@, pre_map, k, i as int));
                            let j = choose|j: int|
                                0 <= j < i && spec_under_folder(*files_map, folder@, j) && (
                                #[trigger] files_map.entries@[j]).0@.skip(flen as int)
                                    == pre_map.entries@[k].0@ && files_map.entries@[j].1.entries@
                                    == pre_map.entries@[k].1.entries@;
                            assert(filtered.entries@[k] == pre[k]);
                            assert(0 <= j < i as int && spec_under_folder(*files_map, folder@, j)
                                && files_map.entries@[j].0@.skip(flen as int)
                                == filtered.entries@[k].0@ && files_map.entries@[j].1.entries@
                                == filtered.entries@[k].1.entries@);
                        }
                        lemma_chroot_entry_from_mono(
                            *files_map,
                            folder@,
                            filtered,
                            k,
                            i as int,
                            i as int + 1,
                        );
                    }
                }
                assert forall|x: int, y: int|
                    0 <= x < y < filtered.entries@.len() implies (
                #[trigger] filtered.entries@[x]).0@ != (#[trigger] filtered.entries@[y]).0@ by {
                    if y == last {
                        assert(spec_chroot_entry_from(*files_map, folder@, pre_map, x, i as int));
                        let j = choose|j: int|
                            0 <= j < i && spec_under_folder(*files_map, folder@, j) && (
                            #[trigger] files_map.entries@[j]).0@.skip(flen as int)
                                == pre_map.entries@[x].0@ && files_map.entries@[j].1.entries@
                                == pre_map.entries@[x].1.entries@;
                        if filtered.entries@[x].0@ == filtered.entries@[y].0@ {
                            assert(filtered.entries@[x] == pre[x]);
                            assert(files_map.entries@[j].0@.take(flen as int).len() == flen);
                            assert(files_map.entries@[j].0@ =~= files_map.entries@[j].0@.take(
                                flen as int,
                            ) + files_map.entries@[j].0@.skip(flen as int));
                            assert(files_map.entries@[i as int].0@ =~= files_map.entries@[
                                i as int].0@.take(flen as int) + files_map.entries@[
                                i as int].0@.skip(flen as int));
                            assert(files_map.entries@[j].0@ == files_map.entries@[i as int].0@);
                            assert(false);
                        }
                    }
                }
            }
        } else {
            proof {
                assert(!spec_under_folder(*files_map, folder@, i as int));
                assert forall|k: int|
                    0 <= k < filtered.entries@.len() implies #[trigger] spec_chroot_entry_from(
                    *files_map,
                    folder@,
                    filtered,
                    k,
                    i as int + 1,
                ) by {
                    lemma_chroot_entry_from_mono(
                        *files_map,
                        folder@,
                        filtered,
                        k,
                        i as int,
                        i as int + 1,
                    );
                }
            }
        }
        i += 1;
    }
    if filtered.entries.len() == 0 {
        proof {
            assert forall|j: int| !spec_under_folder(*files_map, folder@, j) by {
                if spec_under_folder(*files_map, folder@, j) {
                    lemma_count_under_at(*files_map, folder@, j);
                }
            }
        }
        Err(Error::ContentError(String::from_str("no data found for the path")))
    } else {
        proof {
            lemma_count_under_pos(*files_map, folder@, nm as int);
        }
        Ok(filtered)
    }
}

/// An entry under the folder makes the count past it positive.
proof fn lemma_count_under_at(fm: FilesMap, folder: Seq<char>, j: int)
    requires
        spec_under_folder(fm, folder, j),
    ensures
        spec_count_under(fm, folder, fm.entries@.len() as int) >= 1,
    decreases fm.entries@.len() - j,
{
    lemma_count_under_nonneg(fm, folder, j + 1);
    lemma_count_under_mono(fm, folder, j + 1, fm.entries@.len() as int);
    assert(spec_count_under(fm, folder, j + 1) >= 1) by {
        lemma_count_under_nonneg(fm, folder, j);
    }
}

/// Counts are never negative.
proof fn lemma_count_under_nonneg(fm: FilesMap, folder: Seq<char>, upto: int)
    ensures
        spec_count_under(fm, folder, upto) >= 0,
    decreases upto,
{
    if upto > 0 {
        lemma_count_under_nonneg(fm, folder, upto - 1);
    }
}

/// A positive count names an entry under the folder.
proof fn lemma_count_under_pos(fm: FilesMap, folder: Seq<char>, upto: int)
    requires
        spec_count_under(fm, folder, upto) > 0,
    ensures
        exists|j: int| spec_under_folder(fm, folder, j),
    decreases upto,
{
    if upto > 0 {
        if spec_under_folder(fm, folder, upto - 1) {
            assert(spec_under_folder(fm, folder, upto - 1));
        } else {
            lemma_count_under_pos(fm, folder, upto - 1);
        }
    }
}

/// Counting further never shrinks the count.
proof fn lemma_count_under_mono(fm: FilesMap, folder: Seq<char>, a: int, b: int)
    requires
        a <= b,
    ensures
        spec_count_under(fm, folder, a) <= spec_count_under(fm, folder, b),
    decreases b - a,
{
    if a < b {
        lemma_count_under_mono(fm, folder, a, b - 1);
    }
}

} // verus!

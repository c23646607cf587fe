//! An embedded backend: an immutable in-memory tree of files, with contents
//! known when the tree is built.

use vstd::prelude::*;

use crate::fs::{FileExt, FileModel, Filesystem, FsError, Metadata, SeekFrom};

verus! {

/// One node of an embedded tree: a directory marker or a file.
pub enum DirNode {
    Directory,
    File { contents: Vec<u8>, modified: Option<u64> },
}

/// One entry of an embedded tree: a relative path and its node.
pub struct DirEntry {
    pub path: String,
    pub node: DirNode,
}

/// The model of one node.
pub enum NodeModel {
    Directory,
    File(FileModel),
}

impl DirNode {
    /// The model of this node.
    pub open spec fn model(&self) -> NodeModel {
        match self {
            DirNode::Directory => NodeModel::Directory,
            DirNode::File { contents, modified } => NodeModel::File(
                FileModel { contents: contents@, modified: *modified },
            ),
        }
    }
}

/// The node each path names; when a path occurs twice, the earliest entry wins.
pub open spec fn nodes_of(s: Seq<DirEntry>) -> Map<Seq<char>, NodeModel>
    decreases s.len(),
{
    if s.len() == 0 {
        Map::empty()
    } else {
        nodes_of(s.drop_first()).insert(s.first().path@, s.first().node.model())
    }
}

/// An embedded filesystem over an immutable tree of files.
pub struct IncludeDirFilesystem {
    entries: Vec<DirEntry>,
}

/// A reader over one embedded file's byte slice; reads go from an internal
/// cursor to the end of the contents.
pub struct IncludeDirFile {
    contents: Vec<u8>,
    modified: Option<u64>,
    pos: u64,
}

impl IncludeDirFilesystem {
    /// Create a new [`IncludeDirFilesystem`] over the given tree.
    pub fn new(dir: Vec<DirEntry>) -> (r: Self)
        ensures
            r.nodes() == nodes_of(dir@),
            r.total(),
    {
        Self { entries: dir }
    }

    /// The model of the whole tree.
    pub closed spec fn nodes(&self) -> Map<Seq<char>, NodeModel> {
        nodes_of(self.entries@)
    }

    /// How the trait model arises from the tree: the files are the `File`
    /// nodes, the directories the `Directory` nodes, and the backend is
    /// total. This is the public bridge from [`Self::nodes`] to the model
    /// that [`crate::serve_dir::serve_model`] is stated over.
    pub proof fn lemma_model(&self)
        ensures
            self.total(),
            self.files() == Map::new(
                |p: Seq<char>| self.nodes().contains_key(p) && self.nodes()[p] is File,
                |p: Seq<char>| self.nodes()[p]->File_0,
            ),
            self.dirs() == Set::new(
                |p: Seq<char>| self.nodes().contains_key(p) && self.nodes()[p] is Directory,
            ),
    {
    }

    /// The index of the first entry whose path is `path`.
    fn find(&self, path: &String) -> (r: Option<usize>)
        ensures
            r matches Some(i) ==> {
                &&& i < self.entries@.len()
                &&& self.entries@[i as int].path@ == path@
                &&& self.nodes().contains_key(path@)
                &&& self.nodes()[path@] == self.entries@[i as int].node.model()
            },
            r is None ==> !self.nodes().contains_key(path@),
    {
        let n = self.entries.len();
        let mut i: usize = 0;
        while i < n
            invariant
                n == self.entries@.len(),
                i <= n,
                forall|j: int| 0 <= j < i ==> self.entries@[j].path@ != path@,
            decreases n - i,
        {
            if self.entries[i].path == *path {
                proof {
                    lemma_nodes_of_first_match(self.entries@, path@, i as int);
                }
                return Some(i);
            }
            i = i + 1;
        }
        proof {
            lemma_nodes_of_no_match(self.entries@, path@);
        }
        None
    }
}

/// When the first match for `p` in `s` stands at `i`, the model maps `p` to
/// that entry's node.
proof fn lemma_nodes_of_first_match(s: Seq<DirEntry>, p: Seq<char>, i: int)
    requires
        0 <= i < s.len(),
        s[i].path@ == p,
        forall|j: int| 0 <= j < i ==> s[j].path@ != p,
    ensures
        nodes_of(s).contains_key(p),
        nodes_of(s)[p] == s[i].node.model(),
    decreases s.len(),
{
    if i > 0 {
        lemma_nodes_of_first_match(s.drop_first(), p, i - 1);
    }
}

/// When no entry of `s` has path `p`, the model has no key `p`.
proof fn lemma_nodes_of_no_match(s: Seq<DirEntry>, p: Seq<char>)
    requires
        forall|j: int| 0 <= j < s.len() ==> s[j].path@ != p,
    ensures
        !nodes_of(s).contains_key(p),
    decreases s.len(),
{
    if s.len() > 0 {
        lemma_nodes_of_no_match(s.drop_first(), p);
    }
}

impl Filesystem for IncludeDirFilesystem {
    type File = IncludeDirFile;

    closed spec fn files(&self) -> Map<Seq<char>, FileModel> {
        Map::new(
            |p: Seq<char>| self.nodes().contains_key(p) && self.nodes()[p] is File,
            |p: Seq<char>| self.nodes()[p]->File_0,
        )
    }

    closed spec fn dirs(&self) -> Set<Seq<char>> {
        Set::new(|p: Seq<char>| self.nodes().contains_key(p) && self.nodes()[p] is Directory)
    }

    closed spec fn total(&self) -> bool {
        true
    }

    fn open(&mut self, path: &String) -> (r: Result<Self::File, FsError>) {
        match self.find(path) {
            Some(i) => match &self.entries[i].node {
                DirNode::Directory => Err(FsError::NotFound),
                DirNode::File { contents, modified } => Ok(
                    IncludeDirFile {
                        contents: vstd::slice::slice_to_vec(contents.as_slice()),
                        modified: *modified,
                        pos: 0,
                    },
                ),
            },
            None => Err(FsError::NotFound),
        }
    }

    fn is_dir(&self, path: &String) -> (r: Result<bool, FsError>) {
        match self.find(path) {
            Some(i) => match &self.entries[i].node {
                DirNode::Directory => Ok(true),
                DirNode::File { .. } => Ok(false),
            },
            None => Err(FsError::NotFound),
        }
    }

    fn metadata(&self, path: &String) -> (r: Result<Metadata, FsError>) {
        match self.find(path) {
            Some(i) => match &self.entries[i].node {
                DirNode::Directory => Err(FsError::NotFound),
                DirNode::File { contents, modified } => Ok(
                    Metadata { modified: *modified, len: contents.len() as u64 },
                ),
            },
            None => Err(FsError::NotFound),
        }
    }
}

impl IncludeDirFile {
    /// The file's [`Metadata`]: its length and build-time modification time.
    pub fn _metadata(&self) -> (r: Metadata)
        ensures
            r.len == self.contents().len(),
            r.modified == self.modified(),
    {
        Metadata { modified: self.modified, len: self.contents.len() as u64 }
    }
}

impl FileExt for IncludeDirFile {
    closed spec fn contents(&self) -> Seq<u8> {
        self.contents@
    }

    closed spec fn modified(&self) -> Option<u64> {
        self.modified
    }

    closed spec fn pos(&self) -> int {
        self.pos as int
    }

    closed spec fn infallible(&self) -> bool {
        true
    }

    fn metadata(&self) -> (r: Result<Metadata, FsError>) {
        Ok(self._metadata())
    }

    /// Reads hand out exactly the smaller of the requested count and what is
    /// left before the end of the contents.
    fn read_chunk(&mut self, max: usize) -> (r: Result<Vec<u8>, FsError>)
        ensures
            r matches Ok(v) ==> v@.len() == (if old(self).pos() < old(self).contents().len() {
                if max <= old(self).contents().len() - old(self).pos() {
                    max as int
                } else {
                    old(self).contents().len() - old(self).pos()
                }
            } else {
                0
            }),
    {
        let len = self.contents.len();
        if self.pos >= len as u64 {
            return Ok(Vec::new());
        }
        let start = self.pos as usize;
        let avail = len - start;
        let n = if max < avail {
            max
        } else {
            avail
        };
        let chunk = vstd::slice::slice_to_vec(
            vstd::slice::slice_subrange(self.contents.as_slice(), start, start + n),
        );
        self.pos = self.pos + n as u64;
        Ok(chunk)
    }

    /// A target before the start or past the end of the contents is refused
    /// with [`FsError::InvalidInput`] and the cursor stays put.
    fn seek(&mut self, from: SeekFrom) -> (r: Result<u64, FsError>)
        ensures
            ({
                let target: int = match from {
                    SeekFrom::Start(p) => p as int,
                    SeekFrom::End(d) => old(self).contents().len() + d,
                    SeekFrom::Current(d) => old(self).pos() + d,
                };
                &&& (r is Ok <==> 0 <= target <= old(self).contents().len())
                &&& (r matches Ok(n) ==> n == target)
                &&& (r is Err ==> r == Err::<u64, FsError>(FsError::InvalidInput))
            }),
    {
        let len = self.contents.len() as u64;
        let target = match from {
            SeekFrom::Start(start) => Some(start),
            SeekFrom::End(end) => checked_add_signed(len, end),
            SeekFrom::Current(delta) => checked_add_signed(self.pos, delta),
        };
        match target {
            Some(p) => {
                if p <= len {
                    self.pos = p;
                    Ok(p)
                } else {
                    Err(FsError::InvalidInput)
                }
            },
            None => Err(FsError::InvalidInput),
        }
    }
}

/// `base + delta`, or `None` when the sum leaves `u64`.
fn checked_add_signed(base: u64, delta: i64) -> (r: Option<u64>)
    ensures
        r matches Some(p) ==> p == base + delta,
        r is None ==> !(0 <= base + delta <= u64::MAX),
{
    if delta >= 0 {
        let d = delta as u64;
        if base <= u64::MAX - d {
            Some(base + d)
        } else {
            None
        }
    } else {
        let mag = if delta == i64::MIN {
            9223372036854775808u64
        } else {
            (-delta) as u64
        };
        if base >= mag {
            Some(base - mag)
        } else {
            None
        }
    }
}

} // verus!

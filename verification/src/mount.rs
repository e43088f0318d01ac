//! The read-only serving layer: answers identifier lookups, attribute
//! queries, byte-range reads and paginated directory listings against a
//! built tree.  It holds no state beyond the immutable tree; every read
//! rebuilds the file's content stream from the stored seed and discards
//! bytes up to the requested offset -- time proportional to the offset, a
//! deliberate simplicity-over-efficiency tradeoff for fixture data.

use vstd::math::min;
use vstd::prelude::*;

use crate::tree::{
    file_content, spec_dir_attr, spec_file_attr, spec_find_child, spec_find_ino, DirEntry,
    DirMeta, EntryMeta, EntryRef, FileAttr, FileMeta, NodeKind,
};

verus! {

/// How long, in seconds, clients may cache answers: the tree never
/// changes after the build, so a long validity is correct and intended.
pub const TTL_SECS: u64 = 1000;

/// Why a serving request failed.  Requests never fail the process: each
/// maps to a read-only-filesystem error kind.
#[derive(Clone, Copy, Debug, PartialEq, Eq, Structural)]
pub enum FsError {
    /// No entry carries the identifier or name.
    NotFound,
    /// The operation expects a file but the identifier names a directory.
    IsDirectory,
    /// The operation expects a directory but the identifier names a file.
    NotADirectory,
}

/// One row of a directory listing: the child's identifier and kind, its
/// name, and the cookie with which to resume the listing right after it.
#[derive(Debug, Clone)]
pub struct DirListEntry {
    pub ino: u64,
    pub kind: NodeKind,
    pub name: Vec<u8>,
    pub next_cookie: u64,
}

/// One row of a directory listing, mathematically.
pub ghost struct DirListItem {
    pub ino: nat,
    pub kind: NodeKind,
    pub name: Seq<u8>,
    pub next_cookie: nat,
}

impl DirListEntry {
    /// What this row holds, mathematically.
    pub open spec fn meta(&self) -> DirListItem {
        DirListItem {
            ino: self.ino as nat,
            kind: self.kind,
            name: self.name@,
            next_cookie: self.next_cookie as nat,
        }
    }
}

/// The mathematical counterparts of a run of listing rows.
pub open spec fn items_meta(v: Seq<DirListEntry>) -> Seq<DirListItem> {
    Seq::new(v.len(), |i: int| v[i].meta())
}

/// The full listing of a directory: `.` and `..` first, then the files
/// in build order, then the subdirectories in build order.  The cookie
/// carried by each row is its position in this listing plus one: a call
/// resumed with it continues exactly at the next row, so repeated calls
/// neither re-emit nor skip rows.
pub open spec fn spec_listing(d: DirMeta) -> Seq<DirListItem> {
    seq![
        DirListItem { ino: d.ino, kind: NodeKind::Directory, name: seq![46u8], next_cookie: 1 },
        DirListItem {
            ino: d.parent_ino,
            kind: NodeKind::Directory,
            name: seq![46u8, 46u8],
            next_cookie: 2,
        },
    ] + Seq::new(
        d.files.len(),
        |i: int|
            DirListItem {
                ino: d.files[i].ino,
                kind: NodeKind::RegularFile,
                name: d.files[i].name,
                next_cookie: (3 + i) as nat,
            },
    ) + Seq::new(
        d.dirs.len(),
        |i: int|
            DirListItem {
                ino: d.dirs[i].ino,
                kind: NodeKind::Directory,
                name: d.dirs[i].name,
                next_cookie: (3 + d.files.len() + i) as nat,
            },
    )
}

/// Whether a directory's listing stays within the machine's limits; true
/// of every directory that fits in memory.
pub open spec fn listing_fits(d: DirMeta) -> bool {
    &&& d.files.len() + d.dirs.len() <= usize::MAX
    &&& 2 + d.files.len() + d.dirs.len() <= u64::MAX
}

/// What a lookup of `name` under the directory `parent` answers: the
/// child's attributes, with files scanned before subdirectories; nothing
/// when `parent` resolves to no directory or the name matches no child.
pub open spec fn spec_lookup(t: DirMeta, parent: nat, name: Seq<u8>) -> Option<FileAttr> {
    match spec_find_ino(t, parent) {
        Some(EntryMeta::Dir(d)) => match spec_find_child(d, name) {
            Some(EntryMeta::File(f)) => Some(spec_file_attr(f)),
            Some(EntryMeta::Dir(c)) => Some(spec_dir_attr(c)),
            None => None,
        },
        _ => None,
    }
}

/// What an attribute query answers: file or directory attributes for the
/// resolved node, nothing for an unknown identifier.
pub open spec fn spec_get_attributes(t: DirMeta, ino: nat) -> Option<FileAttr> {
    match spec_find_ino(t, ino) {
        Some(EntryMeta::File(f)) => Some(spec_file_attr(f)),
        Some(EntryMeta::Dir(d)) => Some(spec_dir_attr(d)),
        None => None,
    }
}

/// The bytes a read of `len` bytes at `offset` answers: the file's
/// content clipped to its declared size, so a read never passes
/// end-of-content and a read at or past it is empty.
pub open spec fn spec_read_window(f: FileMeta, offset: nat, len: nat) -> Seq<u8> {
    file_content(f).subrange(
        min(offset as int, f.size as int),
        min(offset as int + len as int, f.size as int),
    )
}

/// Copies a byte string.
fn copy_bytes(a: &Vec<u8>) -> (r: Vec<u8>)
    ensures
        r@ == a@,
{
    let mut r: Vec<u8> = Vec::new();
    let mut i: usize = 0;
    while i < a.len()
        invariant
            i <= a@.len(),
            r@ == a@.take(i as int),
        decreases a@.len() - i,
    {
        r.push(a[i]);
        proof {
            assert(r@ =~= a@.take(i as int + 1));
        }
        i = i + 1;
    }
    proof {
        assert(a@.take(a@.len() as int) =~= a@);
    }
    r
}

/// The serving adapter: a pure resolver over one immutable built tree.
pub struct TreeFs {
    /// The root of the tree being served, owning every node.
    pub root: DirEntry,
}

impl TreeFs {
    /// The tree this adapter serves.
    pub open spec fn tree(&self) -> DirMeta {
        self.root.tree()
    }

    /// Wraps a built tree for serving.
    pub fn new(root: DirEntry) -> (r: TreeFs)
        ensures
            r.tree() == root.tree(),
    {
        TreeFs { root }
    }

    /// Resolves `name` among the direct children of the directory
    /// `parent` and answers the child's attributes.  Fails with
    /// [`FsError::NotFound`] when `parent` names no directory or no
    /// child carries the name.
    pub fn lookup(&self, parent: u64, name: &[u8]) -> (r: Result<FileAttr, FsError>)
        ensures
            match r {
                Ok(a) => spec_lookup(self.tree(), parent as nat, name@) == Some(a),
                Err(e) => spec_lookup(self.tree(), parent as nat, name@) is None && e
                    is NotFound,
            },
    {
        match self.root.get_entry(parent) {
            Ok(EntryRef::Dir(d)) => match d.get_child(name) {
                Ok(EntryRef::File(f)) => Ok(f.get_attr()),
                Ok(EntryRef::Dir(c)) => Ok(c.get_attr()),
                Err(_) => Err(FsError::NotFound),
            },
            Ok(EntryRef::File(_)) => Err(FsError::NotFound),
            Err(_) => Err(FsError::NotFound),
        }
    }

    /// Answers the attributes of the node carrying the identifier.
    /// Fails with [`FsError::NotFound`] for an unknown identifier.
    pub fn get_attributes(&self, ino: u64) -> (r: Result<FileAttr, FsError>)
        ensures
            match r {
                Ok(a) => spec_get_attributes(self.tree(), ino as nat) == Some(a),
                Err(e) => spec_get_attributes(self.tree(), ino as nat) is None && e
                    is NotFound,
            },
    {
        match self.root.get_entry(ino) {
            Ok(EntryRef::File(f)) => Ok(f.get_attr()),
            Ok(EntryRef::Dir(d)) => Ok(d.get_attr()),
            Err(_) => Err(FsError::NotFound),
        }
    }

    /// Opens the file carrying the identifier: succeeds exactly when the
    /// identifier names a file.
    pub fn open(&self, ino: u64) -> (r: Result<(), FsError>)
        ensures
            r is Ok <==> spec_find_ino(self.tree(), ino as nat) matches Some(
                EntryMeta::File(_),
            ),
            match r {
                Ok(_) => true,
                Err(e) => {
                    &&& e is IsDirectory <==> (spec_find_ino(self.tree(), ino as nat) matches Some(
                        EntryMeta::Dir(_),
                    ))
                    &&& e is NotFound <==> spec_find_ino(self.tree(), ino as nat) is None
                },
            },
    {
        match self.root.get_entry(ino) {
            Ok(EntryRef::File(_)) => Ok(()),
            Ok(EntryRef::Dir(_)) => Err(FsError::IsDirectory),
            Err(_) => Err(FsError::NotFound),
        }
    }

    /// Opens the directory carrying the identifier: succeeds exactly
    /// when the identifier names a directory.
    pub fn open_directory(&self, ino: u64) -> (r: Result<(), FsError>)
        ensures
            r is Ok <==> spec_find_ino(self.tree(), ino as nat) matches Some(
                EntryMeta::Dir(_),
            ),
            match r {
                Ok(_) => true,
                Err(e) => {
                    &&& e is NotADirectory <==> (spec_find_ino(self.tree(), ino as nat) matches Some(
                        EntryMeta::File(_),
                    ))
                    &&& e is NotFound <==> spec_find_ino(self.tree(), ino as nat) is None
                },
            },
    {
        match self.root.get_entry(ino) {
            Ok(EntryRef::Dir(_)) => Ok(()),
            Ok(EntryRef::File(_)) => Err(FsError::NotADirectory),
            Err(_) => Err(FsError::NotFound),
        }
    }

    /// Reads up to `len` bytes of the file carrying the identifier,
    /// starting at `offset`: a fresh content stream is rebuilt from the
    /// stored seed, `offset` bytes are discarded, and the rest is pulled,
    /// truncated at the declared size.  Fails with
    /// [`FsError::IsDirectory`] for a directory and
    /// [`FsError::NotFound`] for an unknown identifier.
    pub fn read(&self, ino: u64, offset: u64, len: u32) -> (r: Result<Vec<u8>, FsError>)
        ensures
            match r {
                Ok(data) => (spec_find_ino(self.tree(), ino as nat) matches Some(
                    EntryMeta::File(f),
                ) && data@ == spec_read_window(f, offset as nat, len as nat)),
                Err(e) => {
                    &&& e is IsDirectory <==> (spec_find_ino(self.tree(), ino as nat) matches Some(
                        EntryMeta::Dir(_),
                    ))
                    &&& e is NotFound <==> spec_find_ino(self.tree(), ino as nat) is None
                    &&& !(e is NotADirectory)
                },
            },
    {
        match self.root.get_entry(ino) {
            Ok(EntryRef::File(f)) => {
                let mut reader = f.get_reader();
                let skip = if offset > f.size as u64 {
                    f.size
                } else {
                    offset as usize
                };
                let discarded = reader.read(skip);
                let data = reader.read(len as usize);
                Ok(data)
            },
            Ok(EntryRef::Dir(_)) => Err(FsError::IsDirectory),
            Err(_) => Err(FsError::NotFound),
        }
    }
}


/// What each row of a listing holds: row `0` is `.` (the directory
/// itself), row `1` is `..` (its parent), rows `2` onward are the files
/// then the subdirectories in build order, and every row's cookie is its
/// position plus one.
pub proof fn lemma_listing_content(d: DirMeta)
    ensures
        spec_listing(d).len() == 2 + d.files.len() + d.dirs.len(),
        spec_listing(d)[0] == (DirListItem {
            ino: d.ino,
            kind: NodeKind::Directory,
            name: seq![46u8],
            next_cookie: 1,
        }),
        spec_listing(d)[1] == (DirListItem {
            ino: d.parent_ino,
            kind: NodeKind::Directory,
            name: seq![46u8, 46u8],
            next_cookie: 2,
        }),
        forall|i: int|
            0 <= i < d.files.len() ==> spec_listing(d)[2 + i] == (DirListItem {
                ino: (#[trigger] d.files[i]).ino,
                kind: NodeKind::RegularFile,
                name: d.files[i].name,
                next_cookie: (3 + i) as nat,
            }),
        forall|j: int|
            0 <= j < d.dirs.len() ==> spec_listing(d)[2 + d.files.len() + j] == (DirListItem {
                ino: (#[trigger] d.dirs[j]).ino,
                kind: NodeKind::Directory,
                name: d.dirs[j].name,
                next_cookie: (3 + d.files.len() + j) as nat,
            }),
{
}

impl TreeFs {
    /// Lists the directory carrying the identifier, starting at the row
    /// named by `cookie` -- `0` for the start, or the `next_cookie` of
    /// the last row received -- and handing out at most `max` rows.
    /// Repeated calls that resume at the returned cookies walk the whole
    /// listing without re-emitting or skipping a row.  Fails with
    /// [`FsError::NotADirectory`] for a file and [`FsError::NotFound`]
    /// for an unknown identifier.
    pub fn read_directory(&self, ino: u64, cookie: u64, max: usize) -> (r: Result<
        Vec<DirListEntry>,
        FsError,
    >)
        ensures
            match r {
                Ok(items) => (spec_find_ino(self.tree(), ino as nat) matches Some(
                    EntryMeta::Dir(d),
                ) && (listing_fits(d) ==> items_meta(items@) == spec_listing(d).subrange(
                    min(cookie as int, spec_listing(d).len() as int),
                    min(cookie as int + max as int, spec_listing(d).len() as int),
                ))),
                Err(e) => {
                    &&& e is NotADirectory <==> (spec_find_ino(self.tree(), ino as nat) matches
                        Some(EntryMeta::File(_)))
                    &&& e is NotFound <==> spec_find_ino(self.tree(), ino as nat) is None
                    &&& !(e is IsDirectory)
                },
            },
    {
        let d = match self.root.get_entry(ino) {
            Ok(EntryRef::Dir(d)) => d,
            Ok(EntryRef::File(_)) => {
                return Err(FsError::NotADirectory);
            },
            Err(_) => {
                return Err(FsError::NotFound);
            },
        };
        let ghost dm = d.tree();
        let ghost ll = spec_listing(dm);
        let ghost lo = min(cookie as int, ll.len() as int);
        proof {
            lemma_listing_content(dm);
        }
        let nc = d.get_nb_children();
        let mut out: Vec<DirListEntry> = Vec::new();
        let mut idx: u64 = cookie;
        let mut produced: usize = 0;
        let mut done = false;
        proof {
            assert(items_meta(out@) =~= ll.subrange(lo, min(idx as int, ll.len() as int)));
        }
        while produced < max && !done
            invariant
                dm == d.tree(),
                ll == spec_listing(dm),
                ll.len() == 2 + dm.files.len() + dm.dirs.len(),
                lo == min(cookie as int, ll.len() as int),
                nc as nat == crate::tree::cap_usize(dm.files.len() + dm.dirs.len()),
                idx as int == cookie + produced,
                produced <= max,
                out@.len() == produced,
                listing_fits(dm) ==> items_meta(out@) == ll.subrange(
                    lo,
                    min(idx as int, ll.len() as int),
                ),
                done ==> (listing_fits(dm) ==> idx as int >= ll.len()),
            decreases max - produced, (if done { 0int } else { 1int }),
        {
            proof {
                lemma_listing_content(dm);
            }
            let ghost out0 = out@;
            if idx == 0 {
                let mut nm: Vec<u8> = Vec::new();
                nm.push(46);
                out.push(DirListEntry { ino: d.ino, kind: NodeKind::Directory, name: nm, next_cookie: 1 });
                proof {
                    assert(nm@ =~= seq![46u8]);
                    if listing_fits(dm) {
                        assert(items_meta(out@) =~= ll.subrange(
                            lo,
                            min(idx as int + 1, ll.len() as int),
                        ));
                    }
                }
                idx = idx + 1;
                produced = produced + 1;
            } else if idx == 1 {
                let mut nm: Vec<u8> = Vec::new();
                nm.push(46);
                nm.push(46);
                out.push(DirListEntry {
                    ino: d.parent_ino,
                    kind: NodeKind::Directory,
                    name: nm,
                    next_cookie: 2,
                });
                proof {
                    assert(nm@ =~= seq![46u8, 46u8]);
                    if listing_fits(dm) {
                        assert(items_meta(out@) =~= ll.subrange(
                            lo,
                            min(idx as int + 1, ll.len() as int),
                        ));
                    }
                }
                idx = idx + 1;
                produced = produced + 1;
            } else if idx == u64::MAX {
                done = true;
            } else if idx - 2 < nc as u64 {
                let ci = (idx - 2) as usize;
                match d.get_child_idx(ci) {
                    Ok(EntryRef::File(f)) => {
                        out.push(DirListEntry {
                            ino: f.ino,
                            kind: NodeKind::RegularFile,
                            name: copy_bytes(&f.name),
                            next_cookie: idx + 1,
                        });
                        proof {
                            assert(f.meta() == dm.files[ci as int]);
                            assert(ll[2 + ci] == (DirListItem {
                                ino: dm.files[ci as int].ino,
                                kind: NodeKind::RegularFile,
                                name: dm.files[ci as int].name,
                                next_cookie: (3 + ci) as nat,
                            }));
                            if listing_fits(dm) {
                                assert(items_meta(out@) =~= ll.subrange(
                                    lo,
                                    min(idx as int + 1, ll.len() as int),
                                ));
                            }
                        }
                        idx = idx + 1;
                        produced = produced + 1;
                    },
                    Ok(EntryRef::Dir(c)) => {
                        let ghost cj = ci - dm.files.len();
                        out.push(DirListEntry {
                            ino: c.ino,
                            kind: NodeKind::Directory,
                            name: copy_bytes(&c.name),
                            next_cookie: idx + 1,
                        });
                        proof {
                            assert(c.tree() == dm.dirs[cj]);
                            assert(ll[2 + dm.files.len() + cj] == (DirListItem {
                                ino: dm.dirs[cj].ino,
                                kind: NodeKind::Directory,
                                name: dm.dirs[cj].name,
                                next_cookie: (3 + dm.files.len() + cj) as nat,
                            }));
                            if listing_fits(dm) {
                                assert(items_meta(out@) =~= ll.subrange(
                                    lo,
                                    min(idx as int + 1, ll.len() as int),
                                ));
                            }
                        }
                        idx = idx + 1;
                        produced = produced + 1;
                    },
                    Err(_) => {
                        done = true;
                    },
                }
            } else {
                done = true;
            }
        }
        proof {
            if listing_fits(dm) {
                assert(min(idx as int, ll.len() as int) == min(
                    cookie as int + max as int,
                    ll.len() as int,
                ));
            }
        }
        Ok(out)
    }
}

/// Directory listing completeness: a full paginated walk -- repeatedly
/// resuming at the returned cookies -- concatenates, without gap,
/// repetition or omission, to the whole listing: `.`, `..`, then every
/// child exactly once, in build order.  Splitting the listing at any
/// midpoints yields adjacent pages that tile it.
pub proof fn lemma_listing_pages(d: DirMeta, a: int, b: int, c: int)
    requires
        0 <= a <= b <= c <= spec_listing(d).len(),
    ensures
        spec_listing(d).subrange(a, b) + spec_listing(d).subrange(b, c) == spec_listing(
            d,
        ).subrange(a, c),
        spec_listing(d).subrange(0, spec_listing(d).len() as int) == spec_listing(d),
{
    assert(spec_listing(d).subrange(a, b) + spec_listing(d).subrange(b, c) =~= spec_listing(
        d,
    ).subrange(a, c));
    assert(spec_listing(d).subrange(0, spec_listing(d).len() as int) =~= spec_listing(d));
}

/// Read/offset consistency: for any window that lies within the file,
/// reading `len` bytes at `offset` answers exactly the bytes from
/// `offset` on of a single read of `offset + len` bytes from the start.
pub proof fn lemma_read_offset_consistency(f: FileMeta, offset: nat, len: nat)
    requires
        offset + len <= f.size,
    ensures
        spec_read_window(f, offset, len) == spec_read_window(f, 0, (offset + len) as nat)
            .subrange(offset as int, (offset + len) as int),
{
    assert(spec_read_window(f, offset, len) =~= spec_read_window(f, 0, (offset + len) as nat)
        .subrange(offset as int, (offset + len) as int));
}

/// Materialization equivalence, on the library's side of the disk: a
/// read of the whole file from the serving path answers exactly the
/// file's content -- the same bytes a fresh reader hands whoever copies
/// the tree to disk, since both are the one stream the stored seed and
/// kind determine.
pub proof fn lemma_full_read_is_content(f: FileMeta)
    ensures
        spec_read_window(f, 0, f.size) == file_content(f),
{
    assert(spec_read_window(f, 0, f.size) =~= file_content(f));
}

} // verus!

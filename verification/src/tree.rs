//! The in-memory tree: directory and file entries, the depth-first build
//! that numbers them, and the read-only resolvers the serving path uses.
//!
//! A build consumes one engine.  All draws happen in a fixed order --
//! child counts first, then, per subdirectory, its name and its whole
//! subtree, then, per file, its name, kind, length and seed -- so that one
//! root seed reproduces the exact same tree, identifiers and per-file
//! seeds every time.  That order is part of the public behaviour; it is
//! written down once, as the specification functions below, and the
//! builder is proved to follow it.

use vstd::prelude::*;

use crate::random::{
    draw_range_usize, draw_word, req_range_usize, req_word, req_word32, spec_chars, spec_is_binary,
    spec_nb_child, Context, Engine, Trace,
};
use crate::stream::{stream_take, FileRead};

verus! {

/// What a file entry holds, mathematically.
pub ghost struct FileMeta {
    /// Path component, extension included.
    pub name: Seq<u8>,
    /// Unique identifier within the tree.
    pub ino: nat,
    /// Identifier of the enclosing directory.
    pub parent_ino: nat,
    /// Sole determinant of the file's bytes, with `is_binary`.
    pub seed: u64,
    /// Whether the content stream is binary rather than text.
    pub is_binary: bool,
    /// Declared byte length of the content.
    pub size: nat,
}

/// What a directory entry holds, mathematically: its own identity and its
/// children, files and subdirectories, each in build order.
pub ghost struct DirMeta {
    /// Path component; empty for the root.
    pub name: Seq<u8>,
    /// Unique identifier within the tree; `1` for the root.
    pub ino: nat,
    /// Identifier of the enclosing directory; the root points at itself.
    pub parent_ino: nat,
    /// File children, in build order.
    pub files: Seq<FileMeta>,
    /// Subdirectory children, in build order.
    pub dirs: Seq<DirMeta>,
}

/// The bytes of a file: the first `size` bytes of the content stream that
/// its stored seed and kind regenerate.
pub open spec fn file_content(f: FileMeta) -> Seq<u8> {
    stream_take(f.seed, f.is_binary, f.size)
}

/// The `.bin` suffix given to binary files.
pub open spec fn bin_ext() -> Seq<u8> {
    seq![46u8, 98u8, 105u8, 110u8]
}

/// The `.text` suffix given to text files.
pub open spec fn text_ext() -> Seq<u8> {
    seq![46u8, 116u8, 101u8, 120u8, 116u8]
}

/// One directory's worth of building, in specification form: the child
/// counts are drawn, the subdirectories are built depth first -- each
/// numbered right after its predecessor's subtree -- and the files are
/// numbered after the last subtree.  Returns the highest identifier
/// consumed, the tree, and the engine trace after all draws.
pub open spec fn spec_build_dir(
    name: Seq<u8>,
    ino: nat,
    parent_ino: nat,
    ctx: Context,
    seed: u64,
    t: Trace,
) -> (nat, DirMeta, Trace)
    decreases ctx.dir_depth.end, 1int, 0int,
{
    let (nf, nd, t1) = spec_nb_child(ctx, seed, t);
    let nd1 = if ctx.dir_depth.end > 1 {
        nd
    } else {
        0u64
    };
    let (last1, dirs, t2) = spec_build_dirs(nd1 as nat, ino, ino, ctx, seed, t1);
    let (last2, files, t3) = spec_build_files(nf as nat, last1, ino, ctx, seed, t2);
    (last2, DirMeta { name, ino, parent_ino, files, dirs }, t3)
}

/// `k` subdirectories built in order: each draws its name, then builds its
/// whole subtree one level deeper, starting at the identifier after the
/// running cursor; the next sibling continues from where it ended.
pub open spec fn spec_build_dirs(
    k: nat,
    cursor: nat,
    parent_ino: nat,
    ctx: Context,
    seed: u64,
    t: Trace,
) -> (nat, Seq<DirMeta>, Trace)
    decreases ctx.dir_depth.end, 0int, k,
{
    if k == 0 || ctx.dir_depth.end == 0 {
        (cursor, Seq::<DirMeta>::empty(), t)
    } else {
        let (nm, t1) = spec_chars(seed, t, 7);
        let (last1, child, t2) = spec_build_dir(
            nm,
            cursor + 1,
            parent_ino,
            ctx.spec_descent(),
            seed,
            t1,
        );
        let (last2, rest, t3) = spec_build_dirs((k - 1) as nat, last1, parent_ino, ctx, seed, t2);
        (last2, seq![child] + rest, t3)
    }
}

/// `k` files built in order: each draws its name, its kind, its length --
/// divided by 8 for text, an approximate word count -- and its seed, and
/// takes the next identifier.
pub open spec fn spec_build_files(
    k: nat,
    cursor: nat,
    parent_ino: nat,
    ctx: Context,
    seed: u64,
    t: Trace,
) -> (nat, Seq<FileMeta>, Trace)
    decreases k,
{
    if k == 0 {
        (cursor, Seq::<FileMeta>::empty(), t)
    } else {
        let (nm, t1) = spec_chars(seed, t, 7);
        let bin = spec_is_binary(ctx, seed, t1);
        let t2 = t1.push(req_word32());
        let len = draw_range_usize(seed, t2, ctx.file_len.start, ctx.file_len.end);
        let t3 = t2.push(req_range_usize(ctx.file_len.start, ctx.file_len.end));
        let size = if bin {
            len as nat
        } else {
            (len / 8) as nat
        };
        let fseed = draw_word(seed, t3);
        let t4 = t3.push(req_word());
        let f = FileMeta {
            name: nm + if bin {
                bin_ext()
            } else {
                text_ext()
            },
            ino: cursor + 1,
            parent_ino,
            seed: fseed,
            is_binary: bin,
            size,
        };
        let (last, rest, t5) = spec_build_files((k - 1) as nat, cursor + 1, parent_ino, ctx, seed, t4);
        (last, seq![f] + rest, t5)
    }
}

/// Building files never hands back an identifier below the cursor.
pub proof fn lemma_build_files_mono(k: nat, cursor: nat, parent_ino: nat, ctx: Context, seed: u64, t: Trace)
    ensures
        spec_build_files(k, cursor, parent_ino, ctx, seed, t).0 >= cursor,
    decreases k,
{
    if k > 0 {
        let (nm, t1) = spec_chars(seed, t, 7);
        let bin = spec_is_binary(ctx, seed, t1);
        let t2 = t1.push(req_word32());
        let t3 = t2.push(req_range_usize(ctx.file_len.start, ctx.file_len.end));
        lemma_build_files_mono((k - 1) as nat, cursor + 1, parent_ino, ctx, seed, t3.push(req_word()));
    }
}

/// Building subdirectories never hands back an identifier below the cursor.
pub proof fn lemma_build_dirs_mono(k: nat, cursor: nat, parent_ino: nat, ctx: Context, seed: u64, t: Trace)
    ensures
        spec_build_dirs(k, cursor, parent_ino, ctx, seed, t).0 >= cursor,
    decreases ctx.dir_depth.end, 0int, k,
{
    if k > 0 && ctx.dir_depth.end > 0 {
        let (nm, t1) = spec_chars(seed, t, 7);
        lemma_build_dir_mono(nm, cursor + 1, parent_ino, ctx.spec_descent(), seed, t1);
        let (last1, child, t2) = spec_build_dir(
            nm,
            cursor + 1,
            parent_ino,
            ctx.spec_descent(),
            seed,
            t1,
        );
        lemma_build_dirs_mono((k - 1) as nat, last1, parent_ino, ctx, seed, t2);
    }
}

/// Building a directory never hands back an identifier below its own.
pub proof fn lemma_build_dir_mono(name: Seq<u8>, ino: nat, parent_ino: nat, ctx: Context, seed: u64, t: Trace)
    ensures
        spec_build_dir(name, ino, parent_ino, ctx, seed, t).0 >= ino,
    decreases ctx.dir_depth.end, 1int, 0int,
{
    let (nf, nd, t1) = spec_nb_child(ctx, seed, t);
    let nd1 = if ctx.dir_depth.end > 1 {
        nd
    } else {
        0u64
    };
    lemma_build_dirs_mono(nd1 as nat, ino, ino, ctx, seed, t1);
    let (last1, dirs, t2) = spec_build_dirs(nd1 as nat, ino, ino, ctx, seed, t1);
    lemma_build_files_mono(nf as nat, last1, ino, ctx, seed, t2);
}


/// Raised when an identifier or a child name matches no entry.
#[derive(Clone, Copy, Debug, PartialEq, Eq, Structural)]
pub struct NoEntry;

impl NoEntry {
    /// A short description of the error.
    pub fn message(&self) -> (r: &'static str)
        ensures
            r@ == "No entry found"@,
    {
        "No entry found"
    }
}

/// A borrowed tree node: a file or a directory.
pub enum EntryRef<'a> {
    File(&'a FileEntry),
    Dir(&'a DirEntry),
}

/// A borrowed tree node, mathematically.
pub ghost enum EntryMeta {
    File(FileMeta),
    Dir(DirMeta),
}

/// A file of the tree.  Created once during the build and immutable
/// afterward: the stored seed, kind and size are all that is ever needed
/// to regenerate its bytes.
pub struct FileEntry {
    /// Path component, extension included.
    pub name: Vec<u8>,
    /// Unique identifier within the tree.
    pub ino: u64,
    /// Identifier of the enclosing directory.
    pub parent_ino: u64,
    /// Sole determinant of the file's bytes, with `is_binary`.
    pub seed: u64,
    /// Whether the content stream is binary rather than text.
    pub is_binary: bool,
    /// Declared byte length of the content.
    pub size: usize,
}

/// A directory of the tree, owning its files and subdirectories.  Created
/// once during the build and immutable afterward.
pub struct DirEntry {
    /// Path component; empty for the root.
    pub name: Vec<u8>,
    /// Unique identifier within the tree; `1` for the root.
    pub ino: u64,
    /// Identifier of the enclosing directory; the root points at itself.
    pub parent_ino: u64,
    /// File children, in build order.
    pub files: Vec<FileEntry>,
    /// Subdirectory children, in build order.
    pub dirs: Vec<DirEntry>,
}

impl FileEntry {
    /// What this entry holds, mathematically.
    pub open spec fn meta(&self) -> FileMeta {
        FileMeta {
            name: self.name@,
            ino: self.ino as nat,
            parent_ino: self.parent_ino as nat,
            seed: self.seed,
            is_binary: self.is_binary,
            size: self.size as nat,
        }
    }
}

/// The mathematical counterparts of a run of file entries.
pub open spec fn files_meta(fs: Seq<FileEntry>) -> Seq<FileMeta> {
    Seq::new(fs.len(), |i: int| fs[i].meta())
}

/// The mathematical counterpart of a directory entry, subtrees included.
pub open spec fn dir_meta(d: DirEntry) -> DirMeta
    decreases d, 2int,
{
    DirMeta {
        name: d.name@,
        ino: d.ino as nat,
        parent_ino: d.parent_ino as nat,
        files: files_meta(d.files@),
        dirs: dirs_vec_meta(d.dirs),
    }
}

/// The mathematical counterparts of a vector of directory entries.
pub open spec fn dirs_vec_meta(ds: Vec<DirEntry>) -> Seq<DirMeta>
    decreases ds, 1int,
{
    dirs_meta(ds@)
}

/// The mathematical counterparts of a run of directory entries.
pub open spec fn dirs_meta(ds: Seq<DirEntry>) -> Seq<DirMeta>
    decreases ds, 0int,
{
    if ds.len() == 0 {
        Seq::<DirMeta>::empty()
    } else {
        seq![dir_meta(ds[0])] + dirs_meta(ds.drop_first())
    }
}

/// A run of directory entries maps to its counterparts one for one.
pub proof fn lemma_dirs_meta(ds: Seq<DirEntry>)
    ensures
        dirs_meta(ds).len() == ds.len(),
        forall|i: int| 0 <= i < ds.len() ==> #[trigger] dirs_meta(ds)[i] == dir_meta(ds[i]),
    decreases ds.len(),
{
    if ds.len() > 0 {
        lemma_dirs_meta(ds.drop_first());
    }
}

impl DirEntry {
    /// What this entry holds, mathematically, subtrees included.
    pub open spec fn tree(&self) -> DirMeta {
        dir_meta(*self)
    }

    /// Builds the root of a tree from a validated context and its engine.
    /// The root is named by the empty path component, carries identifier
    /// `1`, and is its own parent.  Returns nothing in the (unreachable in
    /// practice) case where the tree would need more identifiers than a
    /// `u64` holds.
    pub fn new_root(ctx: Context, eng: &mut Engine) -> (r: Option<DirEntry>)
        requires
            ctx.wf(),
        ensures
            final(eng).seed() == old(eng).seed(),
            ({
                let (last, tree, t2) = spec_build_dir(
                    Seq::<u8>::empty(),
                    1,
                    1,
                    ctx,
                    old(eng).seed(),
                    old(eng).trace(),
                );
                match r {
                    Some(d) => {
                        &&& d.tree() == tree
                        &&& last <= u64::MAX
                        &&& final(eng).trace() == t2
                    },
                    None => last > u64::MAX,
                }
            }),
    {
        match Self::new(Vec::new(), 1, 1, ctx, eng) {
            Some((_, d)) => Some(d),
            None => None,
        }
    }

    /// Builds one directory: asks the context for child counts, builds the
    /// subdirectories depth first -- each starting at the identifier after
    /// the running cursor, under the descended context -- then numbers the
    /// files sequentially after the last subtree.  Returns the highest
    /// identifier consumed, or nothing on identifier exhaustion.
    pub(crate) fn new(name: Vec<u8>, ino: u64, parent_ino: u64, ctx: Context, eng: &mut Engine) -> (r:
        Option<(u64, DirEntry)>)
        requires
            ctx.wf(),
        ensures
            final(eng).seed() == old(eng).seed(),
            ({
                let (last, tree, t2) = spec_build_dir(
                    name@,
                    ino as nat,
                    parent_ino as nat,
                    ctx,
                    old(eng).seed(),
                    old(eng).trace(),
                );
                match r {
                    Some((l, d)) => {
                        &&& l as nat == last
                        &&& d.tree() == tree
                        &&& final(eng).trace() == t2
                    },
                    None => last > u64::MAX,
                }
            }),
        decreases ctx.dir_depth.end, 1int, 0int,
    {
        let ghost seed = eng.seed();
        let ghost t0 = eng.trace();
        let counts = ctx.nb_child(eng);
        proof {
            let (nf, nd, t1) = spec_nb_child(ctx, seed, t0);
            assert(counts.1 == if ctx.dir_depth.end > 1 {
                nd
            } else {
                0u64
            });
        }
        match Self::new_dirs(counts.1, ino, ino, ctx, eng) {
            None => {
                proof {
                    let (nf, nd, t1) = spec_nb_child(ctx, seed, t0);
                    let nd1 = if ctx.dir_depth.end > 1 {
                        nd
                    } else {
                        0u64
                    };
                    let (last1, dirs, t2) = spec_build_dirs(
                        nd1 as nat,
                        ino as nat,
                        ino as nat,
                        ctx,
                        seed,
                        t1,
                    );
                    lemma_build_files_mono(counts.0 as nat, last1, ino as nat, ctx, seed, t2);
                }
                None
            },
            Some((last1, dirs)) => {
                match Self::new_files(counts.0, last1, ino, ctx, eng) {
                    None => None,
                    Some((last2, files)) => {
                        let d = DirEntry { name, ino, parent_ino, files, dirs };
                        proof {
                            let (nf, nd, t1) = spec_nb_child(ctx, seed, t0);
                            let nd1 = if ctx.dir_depth.end > 1 {
                                nd
                            } else {
                                0u64
                            };
                            let (sl1, sdirs, t2) = spec_build_dirs(
                                nd1 as nat,
                                ino as nat,
                                ino as nat,
                                ctx,
                                seed,
                                t1,
                            );
                            let (sl2, sfiles, t3) = spec_build_files(
                                nf as nat,
                                sl1,
                                ino as nat,
                                ctx,
                                seed,
                                t2,
                            );
                            assert(d.tree() == DirMeta {
                                name: d.name@,
                                ino: ino as nat,
                                parent_ino: parent_ino as nat,
                                files: sfiles,
                                dirs: sdirs,
                            });
                        }
                        Some((last2, d))
                    },
                }
            },
        }
    }

    /// Builds `k` subdirectories in order, threading the identifier cursor
    /// through each subtree.
    fn new_dirs(k: u64, cursor: u64, parent_ino: u64, ctx: Context, eng: &mut Engine) -> (r: Option<
        (u64, Vec<DirEntry>),
    >)
        requires
            ctx.wf(),
            k > 0 ==> ctx.dir_depth.end > 1,
        ensures
            final(eng).seed() == old(eng).seed(),
            ({
                let (last, ds, t2) = spec_build_dirs(
                    k as nat,
                    cursor as nat,
                    parent_ino as nat,
                    ctx,
                    old(eng).seed(),
                    old(eng).trace(),
                );
                match r {
                    Some((l, dv)) => {
                        &&& l as nat == last
                        &&& dirs_meta(dv@) == ds
                        &&& final(eng).trace() == t2
                    },
                    None => last > u64::MAX,
                }
            }),
        decreases ctx.dir_depth.end, 0int, k,
    {
        let ghost seed = eng.seed();
        let ghost t0 = eng.trace();
        if k == 0 {
            let empty: Vec<DirEntry> = Vec::new();
            proof {
                assert(dirs_meta(empty@) =~= Seq::<DirMeta>::empty());
            }
            Some((cursor, empty))
        } else {
            let nm = ctx.name(eng);
            let child_ctx = ctx.descent();
            proof {
                let (snm, t1) = spec_chars(seed, t0, 7);
                lemma_build_dir_mono(snm, cursor as nat + 1, parent_ino as nat, child_ctx, seed, t1);
                let (slast1, schild, t2) = spec_build_dir(
                    snm,
                    cursor as nat + 1,
                    parent_ino as nat,
                    child_ctx,
                    seed,
                    t1,
                );
                lemma_build_dirs_mono((k - 1) as nat, slast1, parent_ino as nat, ctx, seed, t2);
            }
            if cursor == u64::MAX {
                return None;
            }
            match Self::new(nm, cursor + 1, parent_ino, child_ctx, eng) {
                None => None,
                Some((last1, child)) => {
                    match Self::new_dirs(k - 1, last1, parent_ino, ctx, eng) {
                        None => None,
                        Some((last2, mut rest)) => {
                            let ghost rv = rest@;
                            rest.insert(0, child);
                            proof {
                                let (snm, t1) = spec_chars(seed, t0, 7);
                                let (slast1, schild, t2) = spec_build_dir(
                                    snm,
                                    cursor as nat + 1,
                                    parent_ino as nat,
                                    child_ctx,
                                    seed,
                                    t1,
                                );
                                let (slast2, srest, t3) = spec_build_dirs(
                                    (k - 1) as nat,
                                    slast1,
                                    parent_ino as nat,
                                    ctx,
                                    seed,
                                    t2,
                                );
                                assert(rest@.drop_first() =~= rv);
                                assert(rest@[0] == child);
                                assert(dirs_meta(rest@) == seq![dir_meta(rest@[0])] + dirs_meta(
                                    rest@.drop_first(),
                                ));
                                assert(dirs_meta(rest@) == seq![schild] + srest);
                            }
                            Some((last2, rest))
                        },
                    }
                },
            }
        }
    }

    /// Builds `k` files in order, numbering each from the cursor.
    fn new_files(k: u64, cursor: u64, parent_ino: u64, ctx: Context, eng: &mut Engine) -> (r: Option<
        (u64, Vec<FileEntry>),
    >)
        requires
            ctx.wf(),
        ensures
            final(eng).seed() == old(eng).seed(),
            ({
                let (last, fs, t2) = spec_build_files(
                    k as nat,
                    cursor as nat,
                    parent_ino as nat,
                    ctx,
                    old(eng).seed(),
                    old(eng).trace(),
                );
                match r {
                    Some((l, fv)) => {
                        &&& l as nat == last
                        &&& files_meta(fv@) == fs
                        &&& final(eng).trace() == t2
                    },
                    None => last > u64::MAX,
                }
            }),
        decreases k,
    {
        let ghost seed = eng.seed();
        let ghost t0 = eng.trace();
        if k == 0 {
            let empty: Vec<FileEntry> = Vec::new();
            proof {
                assert(files_meta(empty@) =~= Seq::<FileMeta>::empty());
            }
            Some((cursor, empty))
        } else {
            let mut nm = ctx.name(eng);
            let bin = ctx.is_binary(eng);
            let size = if bin {
                ctx.file_len(eng)
            } else {
                ctx.text_len(eng)
            };
            let fseed = ctx.get(eng);
            let ghost bare = nm@;
            if bin {
                nm.push(46);
                nm.push(98);
                nm.push(105);
                nm.push(110);
                proof {
                    assert(nm@ =~= bare + bin_ext());
                }
            } else {
                nm.push(46);
                nm.push(116);
                nm.push(101);
                nm.push(120);
                nm.push(116);
                proof {
                    assert(nm@ =~= bare + text_ext());
                }
            }
            proof {
                let (snm, t1) = spec_chars(seed, t0, 7);
                let t2 = t1.push(req_word32());
                let t3 = t2.push(req_range_usize(ctx.file_len.start, ctx.file_len.end));
                lemma_build_files_mono(
                    (k - 1) as nat,
                    cursor as nat + 1,
                    parent_ino as nat,
                    ctx,
                    seed,
                    t3.push(req_word()),
                );
            }
            if cursor == u64::MAX {
                return None;
            }
            let f = FileEntry { name: nm, ino: cursor + 1, parent_ino, seed: fseed, is_binary: bin, size };
            match Self::new_files(k - 1, cursor + 1, parent_ino, ctx, eng) {
                None => None,
                Some((last, mut rest)) => {
                    rest.insert(0, f);
                    proof {
                        let (snm, t1) = spec_chars(seed, t0, 7);
                        let sbin = spec_is_binary(ctx, seed, t1);
                        let t2 = t1.push(req_word32());
                        let slen = draw_range_usize(seed, t2, ctx.file_len.start, ctx.file_len.end);
                        let t3 = t2.push(req_range_usize(ctx.file_len.start, ctx.file_len.end));
                        let sfseed = draw_word(seed, t3);
                        let t4 = t3.push(req_word());
                        let (slast, srest, t5) = spec_build_files(
                            (k - 1) as nat,
                            cursor as nat + 1,
                            parent_ino as nat,
                            ctx,
                            seed,
                            t4,
                        );
                        let sf = FileMeta {
                            name: bare + if sbin {
                                bin_ext()
                            } else {
                                text_ext()
                            },
                            ino: cursor as nat + 1,
                            parent_ino: parent_ino as nat,
                            seed: sfseed,
                            is_binary: sbin,
                            size: if sbin {
                                slen as nat
                            } else {
                                (slen / 8) as nat
                            },
                        };
                        assert(f.meta() == sf);
                        assert(files_meta(rest@) =~= seq![sf] + srest);
                    }
                    Some((last, rest))
                },
            }
        }
    }
}


/// The identifiers of a subtree, depth first: the directory itself, its
/// subdirectories' subtrees in order, then its files in order -- the
/// numbering order of the build.
pub open spec fn tree_inos(t: DirMeta) -> Seq<nat>
    decreases t, 2int,
{
    seq![t.ino] + forest_inos(t.dirs) + files_inos(t.files)
}

/// The identifiers of a run of subtrees, in order.
pub open spec fn forest_inos(ds: Seq<DirMeta>) -> Seq<nat>
    decreases ds, 0int,
{
    if ds.len() == 0 {
        Seq::<nat>::empty()
    } else {
        tree_inos(ds[0]) + forest_inos(ds.drop_first())
    }
}

/// The identifiers of a run of files, in order.
pub open spec fn files_inos(fs: Seq<FileMeta>) -> Seq<nat> {
    Seq::new(fs.len(), |i: int| fs[i].ino)
}

/// `n` consecutive identifiers starting at `lo`.
pub open spec fn ino_span(lo: nat, n: nat) -> Seq<nat> {
    Seq::new(n, |i: int| (lo + i) as nat)
}

/// Every child of every directory of the subtree names its owner as its
/// parent.
pub open spec fn tree_linked(t: DirMeta) -> bool
    decreases t, 2int,
{
    &&& forall|i: int| 0 <= i < t.files.len() ==> (#[trigger] t.files[i]).parent_ino == t.ino
    &&& forest_linked(t.dirs, t.ino)
}

/// Every subtree of the run is linked and names `parent` as its parent.
pub open spec fn forest_linked(ds: Seq<DirMeta>, parent: nat) -> bool
    decreases ds, 0int,
{
    if ds.len() == 0 {
        true
    } else {
        &&& ds[0].parent_ino == parent
        &&& tree_linked(ds[0])
        &&& forest_linked(ds.drop_first(), parent)
    }
}

/// Adjacent spans of identifiers concatenate into one span.
proof fn lemma_span_concat(lo: nat, m: nat, n: nat)
    ensures
        ino_span(lo, m) + ino_span((lo + m) as nat, n) == ino_span(lo, (m + n) as nat),
{
    assert(ino_span(lo, m) + ino_span((lo + m) as nat, n) =~= ino_span(lo, (m + n) as nat));
}

/// A span holds no identifier twice.
pub proof fn lemma_span_unique(lo: nat, n: nat)
    ensures
        ino_span(lo, n).no_duplicates(),
{
    assert forall|i: int, j: int|
        0 <= i < n && 0 <= j < n && i != j implies ino_span(lo, n)[i] != ino_span(lo, n)[j] by {}
}

/// Built files take exactly the next `k` identifiers, in order, and all
/// name their owner.
proof fn lemma_build_files_ids(k: nat, cursor: nat, parent_ino: nat, ctx: Context, seed: u64, t: Trace)
    ensures
        ({
            let (last, fs, t2) = spec_build_files(k, cursor, parent_ino, ctx, seed, t);
            &&& last == cursor + k
            &&& fs.len() == k
            &&& files_inos(fs) == ino_span((cursor + 1) as nat, k)
            &&& forall|i: int| 0 <= i < fs.len() ==> (#[trigger] fs[i]).parent_ino == parent_ino
        }),
    decreases k,
{
    let (last, fs, t2) = spec_build_files(k, cursor, parent_ino, ctx, seed, t);
    if k == 0 {
        assert(files_inos(fs) =~= ino_span((cursor + 1) as nat, 0));
    } else {
        let (nm, t1) = spec_chars(seed, t, 7);
        let bin = spec_is_binary(ctx, seed, t1);
        let t2a = t1.push(req_word32());
        let t3 = t2a.push(req_range_usize(ctx.file_len.start, ctx.file_len.end));
        let t4 = t3.push(req_word());
        lemma_build_files_ids((k - 1) as nat, cursor + 1, parent_ino, ctx, seed, t4);
        let (rlast, rest, t5) = spec_build_files((k - 1) as nat, cursor + 1, parent_ino, ctx, seed, t4);
        assert(fs.drop_first() =~= rest);
        assert(fs[0].ino == cursor + 1);
        assert forall|i: int| 0 <= i < fs.len() implies (#[trigger] files_inos(fs)[i]) == ino_span(
            (cursor + 1) as nat,
            k,
        )[i] by {
            if i > 0 {
                assert(fs[i] == rest[i - 1]);
                assert(files_inos(rest)[i - 1] == rest[i - 1].ino);
            }
        }
        assert(files_inos(fs) =~= ino_span((cursor + 1) as nat, k));
    }
}

/// Built subdirectory runs take exactly the identifiers between the
/// cursor and the returned last one, in depth-first order, all linked.
proof fn lemma_build_dirs_ids(k: nat, cursor: nat, parent_ino: nat, ctx: Context, seed: u64, t: Trace)
    ensures
        ({
            let (last, ds, t2) = spec_build_dirs(k, cursor, parent_ino, ctx, seed, t);
            &&& last >= cursor
            &&& forest_inos(ds) == ino_span((cursor + 1) as nat, (last - cursor) as nat)
            &&& forest_linked(ds, parent_ino)
        }),
    decreases ctx.dir_depth.end, 0int, k,
{
    let (last, ds, t2) = spec_build_dirs(k, cursor, parent_ino, ctx, seed, t);
    if k == 0 || ctx.dir_depth.end == 0 {
        assert(forest_inos(ds) =~= ino_span((cursor + 1) as nat, 0));
    } else {
        let (nm, t1) = spec_chars(seed, t, 7);
        lemma_build_dir_ids(nm, cursor + 1, parent_ino, ctx.spec_descent(), seed, t1);
        let (last1, child, t2a) = spec_build_dir(
            nm,
            cursor + 1,
            parent_ino,
            ctx.spec_descent(),
            seed,
            t1,
        );
        lemma_build_dirs_ids((k - 1) as nat, last1, parent_ino, ctx, seed, t2a);
        let (last2, rest, t3) = spec_build_dirs((k - 1) as nat, last1, parent_ino, ctx, seed, t2a);
        assert(ds[0] == child);
        assert(ds.drop_first() =~= rest);
        assert(forest_inos(ds) == tree_inos(child) + forest_inos(rest));
        lemma_span_concat(
            (cursor + 1) as nat,
            (last1 - cursor) as nat,
            (last2 - last1) as nat,
        );
    }
}

/// A built subtree takes exactly the identifiers from its own to the
/// returned last one, in depth-first order, and is fully linked.
proof fn lemma_build_dir_ids(name: Seq<u8>, ino: nat, parent_ino: nat, ctx: Context, seed: u64, t: Trace)
    ensures
        ({
            let (last, tree, t2) = spec_build_dir(name, ino, parent_ino, ctx, seed, t);
            &&& last >= ino
            &&& tree.name == name
            &&& tree.ino == ino
            &&& tree.parent_ino == parent_ino
            &&& tree_inos(tree) == ino_span(ino, (last + 1 - ino) as nat)
            &&& tree_linked(tree)
        }),
    decreases ctx.dir_depth.end, 1int, 0int,
{
    let (nf, nd, t1) = spec_nb_child(ctx, seed, t);
    let nd1 = if ctx.dir_depth.end > 1 {
        nd
    } else {
        0u64
    };
    lemma_build_dirs_ids(nd1 as nat, ino, ino, ctx, seed, t1);
    let (last1, dirs, t2) = spec_build_dirs(nd1 as nat, ino, ino, ctx, seed, t1);
    lemma_build_files_ids(nf as nat, last1, ino, ctx, seed, t2);
    let (last2, files, t3) = spec_build_files(nf as nat, last1, ino, ctx, seed, t2);
    let (last, tree, t4) = spec_build_dir(name, ino, parent_ino, ctx, seed, t);
    assert(seq![ino] =~= ino_span(ino, 1));
    lemma_span_concat(ino, 1, (last1 - ino) as nat);
    lemma_span_concat(ino, (last1 + 1 - ino) as nat, (last2 - last1) as nat);
    assert(tree_inos(tree) == (seq![ino] + forest_inos(dirs)) + files_inos(files));
    assert(seq![ino] + forest_inos(dirs) + files_inos(files) == ino_span(
        ino,
        (last2 + 1 - ino) as nat,
    ));
}

/// Identifier uniqueness and scope: in any built tree the root carries
/// identifier `1` and is its own parent, the identifiers are exactly the
/// consecutive run from `1` to the last one consumed -- so no identifier
/// appears twice -- and every child's parent link names the directory
/// that owns it.
pub proof fn lemma_tree_identifiers(ctx: Context, seed: u64)
    ensures
        ({
            let (last, tree, t2) = spec_build_dir(
                Seq::<u8>::empty(),
                1,
                1,
                ctx,
                seed,
                Seq::<crate::random::Req>::empty(),
            );
            &&& tree.ino == 1
            &&& tree.parent_ino == 1
            &&& tree_inos(tree) == ino_span(1, last as nat)
            &&& tree_inos(tree).no_duplicates()
            &&& tree_linked(tree)
        }),
{
    let t0 = Seq::<crate::random::Req>::empty();
    lemma_build_dir_ids(Seq::<u8>::empty(), 1, 1, ctx, seed, t0);
    let (last, tree, t2) = spec_build_dir(Seq::<u8>::empty(), 1, 1, ctx, seed, t0);
    lemma_span_unique(1, last as nat);
}


/// A count, capped at what a `usize` holds.
pub open spec fn cap_usize(n: nat) -> nat {
    if n > usize::MAX {
        usize::MAX as nat
    } else {
        n
    }
}

/// A count, capped at what a `u64` holds.
pub open spec fn cap_u64(n: nat) -> nat {
    if n > u64::MAX {
        u64::MAX as nat
    } else {
        n
    }
}

/// The first file of the run carrying the identifier, if any.
pub open spec fn find_ino_in_files(fs: Seq<FileMeta>, ino: nat) -> Option<FileMeta>
    decreases fs,
{
    if fs.len() == 0 {
        None
    } else if fs[0].ino == ino {
        Some(fs[0])
    } else {
        find_ino_in_files(fs.drop_first(), ino)
    }
}

/// The node carrying the identifier, resolved the way the serving path
/// scans: the directory itself first, then its files in order, then its
/// subtrees in order, depth first.
pub open spec fn spec_find_ino(t: DirMeta, ino: nat) -> Option<EntryMeta>
    decreases t, 2int,
{
    if t.ino == ino {
        Some(EntryMeta::Dir(t))
    } else {
        match find_ino_in_files(t.files, ino) {
            Some(f) => Some(EntryMeta::File(f)),
            None => find_ino_in_forest(t.dirs, ino),
        }
    }
}

/// The node carrying the identifier within a run of subtrees, if any.
pub open spec fn find_ino_in_forest(ds: Seq<DirMeta>, ino: nat) -> Option<EntryMeta>
    decreases ds, 0int,
{
    if ds.len() == 0 {
        None
    } else {
        match spec_find_ino(ds[0], ino) {
            Some(e) => Some(e),
            None => find_ino_in_forest(ds.drop_first(), ino),
        }
    }
}

/// The first file of the run carrying the name, if any.
pub open spec fn find_name_in_files(fs: Seq<FileMeta>, name: Seq<u8>) -> Option<FileMeta>
    decreases fs,
{
    if fs.len() == 0 {
        None
    } else if fs[0].name == name {
        Some(fs[0])
    } else {
        find_name_in_files(fs.drop_first(), name)
    }
}

/// The first subtree of the run whose root carries the name, if any.
pub open spec fn find_name_in_dirs(ds: Seq<DirMeta>, name: Seq<u8>) -> Option<DirMeta>
    decreases ds,
{
    if ds.len() == 0 {
        None
    } else if ds[0].name == name {
        Some(ds[0])
    } else {
        find_name_in_dirs(ds.drop_first(), name)
    }
}

/// The direct child carrying the name, files scanned before
/// subdirectories, each in build order.
pub open spec fn spec_find_child(t: DirMeta, name: Seq<u8>) -> Option<EntryMeta> {
    match find_name_in_files(t.files, name) {
        Some(f) => Some(EntryMeta::File(f)),
        None => match find_name_in_dirs(t.dirs, name) {
            Some(d) => Some(EntryMeta::Dir(d)),
            None => None,
        },
    }
}

/// Compares two byte strings.
fn bytes_eq(a: &[u8], b: &[u8]) -> (r: bool)
    ensures
        r <==> a@ == b@,
{
    if a.len() != b.len() {
        return false;
    }
    let mut i: usize = 0;
    while i < a.len()
        invariant
            i <= a@.len(),
            a@.len() == b@.len(),
            forall|j: int| 0 <= j < i ==> a@[j] == b@[j],
        decreases a@.len() - i,
    {
        if a[i] != b[i] {
            return false;
        }
        i = i + 1;
    }
    proof {
        assert(a@ =~= b@);
    }
    true
}

impl FileEntry {
    /// Resolves an identifier against this single file.
    pub fn get_entry(&self, ino: u64) -> (r: Result<EntryRef, NoEntry>)
        ensures
            match r {
                Ok(e) => ino == self.meta().ino && (e matches EntryRef::File(f) && f.meta()
                    == self.meta()),
                Err(_) => ino != self.meta().ino,
            },
    {
        if ino == self.ino {
            Ok(EntryRef::File(self))
        } else {
            Err(NoEntry)
        }
    }

    /// The declared byte length of this file's content.
    pub fn size(&self) -> (n: usize)
        ensures
            n == self.meta().size,
    {
        self.size
    }

    /// A fresh reader over this file's content: the stream for the stored
    /// seed and kind, limited to the declared size.  Every reader taken
    /// from the same entry serves the same bytes.
    pub fn get_reader(&self) -> (r: FileRead)
        ensures
            r.wf(),
            r.seed() == self.meta().seed,
            r.is_binary() == self.meta().is_binary,
            r.pos() == 0,
            r.size() == self.meta().size,
            r.content() == file_content(self.meta()),
    {
        FileRead::new(self.seed, self.is_binary, self.size)
    }
}

impl DirEntry {
    /// Resolves an identifier anywhere in this subtree: this directory
    /// first, then its files, then its subtrees in depth-first order.
    pub fn get_entry(&self, ino: u64) -> (r: Result<EntryRef, NoEntry>)
        ensures
            match r {
                Ok(e) => match e {
                    EntryRef::File(f) => spec_find_ino(self.tree(), ino as nat) == Some(
                        EntryMeta::File(f.meta()),
                    ),
                    EntryRef::Dir(d) => spec_find_ino(self.tree(), ino as nat) == Some(
                        EntryMeta::Dir(d.tree()),
                    ),
                },
                Err(_) => spec_find_ino(self.tree(), ino as nat) is None,
            },
        decreases *self, 1int,
    {
        if ino == self.ino {
            return Ok(EntryRef::Dir(self));
        }
        let ghost fsm = files_meta(self.files@);
        proof {
            assert(self.tree().files == fsm);
            assert(self.tree().dirs == dirs_meta(self.dirs@));
            assert(self.tree().ino == self.ino as nat);
            assert(fsm.skip(0) =~= fsm);
        }
        let mut i: usize = 0;
        while i < self.files.len()
            invariant
                i <= self.files@.len(),
                fsm == files_meta(self.files@),
                self.tree().files == fsm,
                self.tree().dirs == dirs_meta(self.dirs@),
                self.tree().ino == self.ino as nat,
                ino != self.ino,
                find_ino_in_files(fsm.skip(i as int), ino as nat) == find_ino_in_files(
                    fsm,
                    ino as nat,
                ),
            decreases self.files@.len() - i,
        {
            proof {
                assert(fsm.skip(i as int).drop_first() =~= fsm.skip(i as int + 1));
                assert(fsm.skip(i as int)[0] == fsm[i as int]);
            }
            if self.files[i].ino == ino {
                proof {
                    assert(find_ino_in_files(fsm.skip(i as int), ino as nat) == Some(
                        fsm[i as int],
                    ));
                }
                return Ok(EntryRef::File(&self.files[i]));
            }
            i = i + 1;
        }
        proof {
            assert(fsm.skip(self.files@.len() as int) =~= Seq::<FileMeta>::empty());
        }
        find_ino_in_dir_run(&self.dirs, ino)
    }

    /// Resolves a direct child by name: files scanned first, then
    /// subdirectories, each in build order.
    pub fn get_child(&self, name: &[u8]) -> (r: Result<EntryRef, NoEntry>)
        ensures
            match r {
                Ok(e) => match e {
                    EntryRef::File(f) => spec_find_child(self.tree(), name@) == Some(
                        EntryMeta::File(f.meta()),
                    ),
                    EntryRef::Dir(d) => spec_find_child(self.tree(), name@) == Some(
                        EntryMeta::Dir(d.tree()),
                    ),
                },
                Err(_) => spec_find_child(self.tree(), name@) is None,
            },
    {
        let ghost fsm = files_meta(self.files@);
        let ghost dsm = dirs_meta(self.dirs@);
        proof {
            lemma_dirs_meta(self.dirs@);
            assert(self.tree().files == fsm);
            assert(self.tree().dirs == dsm);
            assert(fsm.skip(0) =~= fsm);
        }
        let mut i: usize = 0;
        while i < self.files.len()
            invariant
                i <= self.files@.len(),
                fsm == files_meta(self.files@),
                dsm == dirs_meta(self.dirs@),
                self.tree().files == fsm,
                self.tree().dirs == dsm,
                find_name_in_files(fsm.skip(i as int), name@) == find_name_in_files(fsm, name@),
            decreases self.files@.len() - i,
        {
            proof {
                assert(fsm.skip(i as int).drop_first() =~= fsm.skip(i as int + 1));
                assert(fsm.skip(i as int)[0] == fsm[i as int]);
            }
            if bytes_eq(self.files[i].name.as_slice(), name) {
                proof {
                    assert(find_name_in_files(fsm.skip(i as int), name@) == Some(fsm[i as int]));
                }
                return Ok(EntryRef::File(&self.files[i]));
            }
            i = i + 1;
        }
        proof {
            assert(fsm.skip(self.files@.len() as int) =~= Seq::<FileMeta>::empty());
            lemma_dirs_meta(self.dirs@);
            assert(dsm.skip(0) =~= dsm);
        }
        let mut j: usize = 0;
        while j < self.dirs.len()
            invariant
                j <= self.dirs@.len(),
                dsm == dirs_meta(self.dirs@),
                dsm.len() == self.dirs@.len(),
                find_name_in_files(fsm, name@) is None,
                fsm == files_meta(self.files@),
                self.tree().files == fsm,
                self.tree().dirs == dsm,
                find_name_in_dirs(dsm.skip(j as int), name@) == find_name_in_dirs(dsm, name@),
            decreases self.dirs@.len() - j,
        {
            proof {
                lemma_dirs_meta(self.dirs@);
                assert(dsm.skip(j as int).drop_first() =~= dsm.skip(j as int + 1));
                assert(dsm.skip(j as int)[0] == dsm[j as int]);
            }
            if bytes_eq(self.dirs[j].name.as_slice(), name) {
                proof {
                    assert(find_name_in_dirs(dsm.skip(j as int), name@) == Some(dsm[j as int]));
                }
                return Ok(EntryRef::Dir(&self.dirs[j]));
            }
            j = j + 1;
        }
        proof {
            assert(dsm.skip(self.dirs@.len() as int) =~= Seq::<DirMeta>::empty());
        }
        Err(NoEntry)
    }

    /// Resolves a direct child by its position in listing order: files
    /// first, then subdirectories.
    pub fn get_child_idx(&self, idx: usize) -> (r: Result<EntryRef, NoEntry>)
        ensures
            match r {
                Ok(e) => match e {
                    EntryRef::File(f) => idx < self.tree().files.len() && f.meta()
                        == self.tree().files[idx as int],
                    EntryRef::Dir(d) => self.tree().files.len() <= idx && (idx as int
                        - self.tree().files.len()) < self.tree().dirs.len() && d.tree()
                        == self.tree().dirs[idx - self.tree().files.len()],
                },
                Err(_) => idx >= self.tree().files.len() + self.tree().dirs.len(),
            },
    {
        proof {
            lemma_dirs_meta(self.dirs@);
            assert(self.tree().files == files_meta(self.files@));
            assert(self.tree().dirs == dirs_meta(self.dirs@));
        }
        if idx < self.files.len() {
            Ok(EntryRef::File(&self.files[idx]))
        } else {
            let rest = idx - self.files.len();
            if rest < self.dirs.len() {
                Ok(EntryRef::Dir(&self.dirs[rest]))
            } else {
                Err(NoEntry)
            }
        }
    }

    /// How many direct children this directory holds, files and
    /// subdirectories together (saturating at the machine limit, which a
    /// real directory never reaches).
    pub fn get_nb_children(&self) -> (n: usize)
        ensures
            n == cap_usize(self.tree().files.len() + self.tree().dirs.len()),
    {
        proof {
            lemma_dirs_meta(self.dirs@);
            assert(self.tree().files == files_meta(self.files@));
            assert(self.tree().dirs == dirs_meta(self.dirs@));
        }
        if self.files.len() > usize::MAX - self.dirs.len() {
            usize::MAX
        } else {
            self.files.len() + self.dirs.len()
        }
    }
}

/// Resolves an identifier within a run of subtrees, in order.
fn find_ino_in_dir_run<'a>(ds: &'a Vec<DirEntry>, ino: u64) -> (r: Result<EntryRef<'a>, NoEntry>)
    ensures
        match r {
            Ok(e) => match e {
                EntryRef::File(f) => find_ino_in_forest(dirs_meta(ds@), ino as nat) == Some(
                    EntryMeta::File(f.meta()),
                ),
                EntryRef::Dir(d) => find_ino_in_forest(dirs_meta(ds@), ino as nat) == Some(
                    EntryMeta::Dir(d.tree()),
                ),
            },
            Err(_) => find_ino_in_forest(dirs_meta(ds@), ino as nat) is None,
        },
    decreases *ds, 0int,
{
    let ghost dsm = dirs_meta(ds@);
    proof {
        lemma_dirs_meta(ds@);
        assert(dsm.skip(0) =~= dsm);
    }
    let mut i: usize = 0;
    while i < ds.len()
        invariant
            i <= ds@.len(),
            dsm == dirs_meta(ds@),
            dsm.len() == ds@.len(),
            find_ino_in_forest(dsm.skip(i as int), ino as nat) == find_ino_in_forest(
                dsm,
                ino as nat,
            ),
        decreases ds@.len() - i,
    {
        proof {
            lemma_dirs_meta(ds@);
            assert(dsm.skip(i as int).drop_first() =~= dsm.skip(i as int + 1));
            assert(dsm.skip(i as int)[0] == dsm[i as int]);
        }
        match ds[i].get_entry(ino) {
            Ok(e) => {
                return Ok(e);
            },
            Err(_) => {},
        }
        i = i + 1;
    }
    proof {
        assert(dsm.skip(ds@.len() as int) =~= Seq::<DirMeta>::empty());
    }
    Err(NoEntry)
}


/// How many files the subtree holds, in all its directories together.
pub open spec fn count_files(t: DirMeta) -> nat
    decreases t, 2int,
{
    t.files.len() + forest_count(t.dirs)
}

/// How many files a run of subtrees holds.
pub open spec fn forest_count(ds: Seq<DirMeta>) -> nat
    decreases ds, 0int,
{
    if ds.len() == 0 {
        0
    } else {
        count_files(ds[0]) + forest_count(ds.drop_first())
    }
}

/// The declared sizes of a run of files, added up.
pub open spec fn files_size(fs: Seq<FileMeta>) -> nat
    decreases fs,
{
    if fs.len() == 0 {
        0
    } else {
        fs[0].size + files_size(fs.drop_first())
    }
}

/// The declared sizes of every file of the subtree, added up.
pub open spec fn total_size(t: DirMeta) -> nat
    decreases t, 2int,
{
    files_size(t.files) + forest_size(t.dirs)
}

/// The declared sizes of every file of a run of subtrees, added up.
pub open spec fn forest_size(ds: Seq<DirMeta>) -> nat
    decreases ds, 0int,
{
    if ds.len() == 0 {
        0
    } else {
        total_size(ds[0]) + forest_size(ds.drop_first())
    }
}

/// Capping the left summand first caps the sum all the same.
proof fn lemma_cap_u64_add(a: nat, b: nat)
    ensures
        cap_u64(cap_u64(a) + b) == cap_u64(a + b),
        cap_u64(a + cap_u64(b)) == cap_u64(a + b),
{
}

/// Capping the left summand first caps the sum all the same.
proof fn lemma_cap_usize_add(a: nat, b: nat)
    ensures
        cap_usize(cap_usize(a) + b) == cap_usize(a + b),
        cap_usize(a + cap_usize(b)) == cap_usize(a + b),
{
}

/// Adds two counts, saturating at what a `u64` holds.
fn sat_add_u64(a: u64, b: u64) -> (c: u64)
    ensures
        c as nat == cap_u64(a as nat + b as nat),
{
    if a > u64::MAX - b {
        u64::MAX
    } else {
        a + b
    }
}

/// Adds two sizes, saturating at what a `usize` holds.
fn sat_add_usize(a: usize, b: usize) -> (c: usize)
    ensures
        c as nat == cap_usize(a as nat + b as nat),
{
    if a > usize::MAX - b {
        usize::MAX
    } else {
        a + b
    }
}

impl DirEntry {
    /// How many files the subtree holds, in all its directories together
    /// (saturating at the machine limit, which a real tree never
    /// reaches).
    pub fn nb_files(&self) -> (r: u64)
        ensures
            r as nat == cap_u64(count_files(self.tree())),
        decreases *self, 1int,
    {
        proof {
            assert(self.tree().files == files_meta(self.files@));
            assert(self.tree().dirs == dirs_meta(self.dirs@));
        }
        let own = self.files.len() as u64;
        let below = forest_nb_files(&self.dirs);
        proof {
            lemma_cap_u64_add(own as nat, forest_count(dirs_meta(self.dirs@)));
        }
        sat_add_u64(own, below)
    }

    /// The declared sizes of every file of the subtree, added up
    /// (saturating at the machine limit).
    pub fn size(&self) -> (r: usize)
        ensures
            r as nat == cap_usize(total_size(self.tree())),
        decreases *self, 1int,
    {
        proof {
            assert(self.tree().files == files_meta(self.files@));
            assert(self.tree().dirs == dirs_meta(self.dirs@));
        }
        let own = files_total_size(&self.files);
        let below = forest_total_size(&self.dirs);
        proof {
            lemma_cap_usize_add(files_size(files_meta(self.files@)), forest_size(dirs_meta(self.dirs@)));
        }
        sat_add_usize(own, below)
    }
}

/// How many files a run of subtrees holds, saturating.
fn forest_nb_files(ds: &Vec<DirEntry>) -> (r: u64)
    ensures
        r as nat == cap_u64(forest_count(dirs_meta(ds@))),
    decreases *ds, 0int,
{
    let ghost dsm = dirs_meta(ds@);
    proof {
        lemma_dirs_meta(ds@);
        assert(dsm.skip(0) =~= dsm);
    }
    let mut acc: u64 = 0;
    let mut i: usize = 0;
    while i < ds.len()
        invariant
            i <= ds@.len(),
            dsm == dirs_meta(ds@),
            dsm.len() == ds@.len(),
            cap_u64(acc as nat + forest_count(dsm.skip(i as int))) == cap_u64(forest_count(dsm)),
        decreases ds@.len() - i,
    {
        proof {
            lemma_dirs_meta(ds@);
            assert(dsm[i as int] == dir_meta(ds@[i as int]));
            assert(dsm.skip(i as int).drop_first() =~= dsm.skip(i as int + 1));
            assert(dsm.skip(i as int)[0] == dsm[i as int]);
        }
        let below = ds[i].nb_files();
        proof {
            lemma_cap_u64_add(acc as nat + count_files(dsm[i as int]), forest_count(dsm.skip(i as int + 1)));
            lemma_cap_u64_add(acc as nat, count_files(dsm[i as int]));
            lemma_cap_u64_add(acc as nat, cap_u64(count_files(dsm[i as int])));
        }
        acc = sat_add_u64(acc, below);
        i = i + 1;
    }
    proof {
        assert(dsm.skip(ds@.len() as int) =~= Seq::<DirMeta>::empty());
    }
    acc
}

/// The declared sizes of a run of files, added up, saturating.
fn files_total_size(fs: &Vec<FileEntry>) -> (r: usize)
    ensures
        r as nat == cap_usize(files_size(files_meta(fs@))),
{
    let ghost fsm = files_meta(fs@);
    proof {
        assert(fsm.skip(0) =~= fsm);
    }
    let mut acc: usize = 0;
    let mut i: usize = 0;
    while i < fs.len()
        invariant
            i <= fs@.len(),
            fsm == files_meta(fs@),
            cap_usize(acc as nat + files_size(fsm.skip(i as int))) == cap_usize(files_size(fsm)),
        decreases fs@.len() - i,
    {
        proof {
            assert(fsm.skip(i as int).drop_first() =~= fsm.skip(i as int + 1));
            assert(fsm.skip(i as int)[0] == fsm[i as int]);
        }
        let sz = fs[i].size();
        proof {
            lemma_cap_usize_add(acc as nat + fsm[i as int].size, files_size(fsm.skip(i as int + 1)));
            lemma_cap_usize_add(acc as nat, fsm[i as int].size);
        }
        acc = sat_add_usize(acc, sz);
        i = i + 1;
    }
    proof {
        assert(fsm.skip(fs@.len() as int) =~= Seq::<FileMeta>::empty());
    }
    acc
}

/// The declared sizes of every file of a run of subtrees, saturating.
fn forest_total_size(ds: &Vec<DirEntry>) -> (r: usize)
    ensures
        r as nat == cap_usize(forest_size(dirs_meta(ds@))),
    decreases *ds, 0int,
{
    let ghost dsm = dirs_meta(ds@);
    proof {
        lemma_dirs_meta(ds@);
        assert(dsm.skip(0) =~= dsm);
    }
    let mut acc: usize = 0;
    let mut i: usize = 0;
    while i < ds.len()
        invariant
            i <= ds@.len(),
            dsm == dirs_meta(ds@),
            dsm.len() == ds@.len(),
            cap_usize(acc as nat + forest_size(dsm.skip(i as int))) == cap_usize(forest_size(dsm)),
        decreases ds@.len() - i,
    {
        proof {
            lemma_dirs_meta(ds@);
            assert(dsm[i as int] == dir_meta(ds@[i as int]));
            assert(dsm.skip(i as int).drop_first() =~= dsm.skip(i as int + 1));
            assert(dsm.skip(i as int)[0] == dsm[i as int]);
        }
        let below = ds[i].size();
        proof {
            lemma_cap_usize_add(acc as nat + total_size(dsm[i as int]), forest_size(dsm.skip(i as int + 1)));
            lemma_cap_usize_add(acc as nat, total_size(dsm[i as int]));
            lemma_cap_usize_add(acc as nat, cap_usize(total_size(dsm[i as int])));
        }
        acc = sat_add_usize(acc, below);
        i = i + 1;
    }
    proof {
        assert(dsm.skip(ds@.len() as int) =~= Seq::<DirMeta>::empty());
    }
    acc
}

/// What a node is: a regular file or a directory.
#[derive(Clone, Copy, Debug, PartialEq, Eq, Structural)]
pub enum NodeKind {
    RegularFile,
    Directory,
}

/// The fixed placeholder attributes the serving path reports: read-only
/// permission bits, one link count, fixed ownership, and timestamps all
/// at the epoch (the tree never changes after the build, so clients may
/// cache these aggressively).
#[derive(Clone, Copy, Debug, PartialEq, Eq, Structural)]
pub struct FileAttr {
    pub ino: u64,
    pub size: u64,
    pub kind: NodeKind,
    pub blocks: u64,
    pub perm: u16,
    pub nlink: u32,
    pub uid: u32,
    pub gid: u32,
    pub rdev: u32,
    pub blksize: u32,
    pub flags: u32,
}

/// The attributes reported for a file.
pub open spec fn spec_file_attr(f: FileMeta) -> FileAttr {
    FileAttr {
        ino: f.ino as u64,
        size: f.size as u64,
        kind: NodeKind::RegularFile,
        blocks: 1,
        perm: 0o555,
        nlink: 2,
        uid: 1000,
        gid: 1000,
        rdev: 0,
        blksize: 0,
        flags: 0,
    }
}

/// The attributes reported for a directory: as for a file, with kind
/// directory and size zero.
pub open spec fn spec_dir_attr(d: DirMeta) -> FileAttr {
    FileAttr {
        ino: d.ino as u64,
        size: 0,
        kind: NodeKind::Directory,
        blocks: 1,
        perm: 0o555,
        nlink: 2,
        uid: 1000,
        gid: 1000,
        rdev: 0,
        blksize: 0,
        flags: 0,
    }
}

impl FileEntry {
    /// The attributes the serving path reports for this file.
    pub fn get_attr(&self) -> (a: FileAttr)
        ensures
            a == spec_file_attr(self.meta()),
    {
        FileAttr {
            ino: self.ino,
            size: self.size as u64,
            kind: NodeKind::RegularFile,
            blocks: 1,
            perm: 0o555,
            nlink: 2,
            uid: 1000,
            gid: 1000,
            rdev: 0,
            blksize: 0,
            flags: 0,
        }
    }
}

impl DirEntry {
    /// The attributes the serving path reports for this directory.
    pub fn get_attr(&self) -> (a: FileAttr)
        ensures
            a == spec_dir_attr(self.tree()),
    {
        FileAttr {
            ino: self.ino,
            size: 0,
            kind: NodeKind::Directory,
            blocks: 1,
            perm: 0o555,
            nlink: 2,
            uid: 1000,
            gid: 1000,
            rdev: 0,
            blksize: 0,
            flags: 0,
        }
    }
}

/// Determinism: one shape configuration and one root seed admit exactly
/// one tree.  Any two builds that follow the drawing order -- as
/// [`spec_build_dir`] writes it down and the builder is proved to follow
/// it -- produce identical topology, names, identifiers and per-file
/// seeds, and leave the engine with identical traces.
pub proof fn lemma_build_deterministic(
    r1: (nat, DirMeta, Trace),
    r2: (nat, DirMeta, Trace),
    name: Seq<u8>,
    ino: nat,
    parent_ino: nat,
    ctx: Context,
    seed: u64,
    t: Trace,
)
    requires
        r1 == spec_build_dir(name, ino, parent_ino, ctx, seed, t),
        r2 == spec_build_dir(name, ino, parent_ino, ctx, seed, t),
    ensures
        r1 == r2,
{
}

} // verus!

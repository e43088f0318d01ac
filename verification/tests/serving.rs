//! The serving side: content streams, byte-range reads, lookups,
//! attributes, parsing, and paginated directory listings.

use rand::rngs::SmallRng;
use rand::{RngCore, SeedableRng};

use seedtree::mount::{DirListEntry, FsError};
use seedtree::parse::{parse_range_64, parse_range_usize, RangeParseError};
use seedtree::random::{U64Range, UsizeRange};
use seedtree::stream::ContentRead;
use seedtree::tree::{DirEntry, NodeKind};
use seedtree::{ContextBuilder, TreeFs};

fn small_tree(seed: u64) -> DirEntry {
    let mut b = ContextBuilder::new();
    b.seed(seed)
        .dir_depth(U64Range { start: 1, end: 3 })
        .nb_dir_child(U64Range { start: 1, end: 3 })
        .nb_file_child(U64Range { start: 1, end: 4 })
        .binary_ratio(seedtree::random::RATIO_DENOMINATOR / 2)
        .file_len(UsizeRange { start: 100, end: 5000 });
    let (ctx, mut eng) = b.create().unwrap();
    DirEntry::new_root(ctx, &mut eng).unwrap()
}

#[test]
fn binary_stream_matches_the_engine_crate() {
    let mut r = ContentRead::new(77, true);
    let got = r.read(2048);
    let mut rng = SmallRng::seed_from_u64(77);
    let mut expected = vec![0u8; 2048];
    rng.fill_bytes(&mut expected[0..1024]);
    rng.fill_bytes(&mut expected[1024..2048]);
    assert_eq!(got, expected);
}

#[test]
fn text_stream_matches_the_lipsum_crate() {
    let mut r = ContentRead::new(123, false);
    let got = r.read(500);
    let rng = SmallRng::seed_from_u64(123);
    let words = lipsum::lipsum_words_with_rng(rng, 1024);
    assert_eq!(got.as_slice(), &words.as_bytes()[0..500]);
    assert!(got.iter().all(|b| b.is_ascii()));
}

#[test]
fn streams_reproduce_independently() {
    for seed in [0u64, 1, 99999] {
        for binary in [true, false] {
            let mut a = ContentRead::new(seed, binary);
            let mut b = ContentRead::new(seed, binary);
            // Same positions pulled with different call patterns.
            let out_a = a.read(3000);
            let mut out_b = b.read(1);
            out_b.extend(b.read(1499));
            out_b.extend(b.read(1500));
            assert_eq!(out_a, out_b);
        }
    }
}

#[test]
fn typed_readers_match_the_untyped_stream() {
    let mut bin = seedtree::stream::BinRead::new(5);
    let mut txt = seedtree::stream::TextRead::new(5);
    let mut cb = ContentRead::new(5, true);
    let mut ct = ContentRead::new(5, false);
    assert_eq!(bin.read(1500), cb.read(1500));
    assert_eq!(txt.read(1500), ct.read(1500));
    assert_ne!(bin.read(32), txt.read(32));
}

#[test]
fn different_seeds_give_different_bytes() {
    let mut a = ContentRead::new(1, true);
    let mut b = ContentRead::new(2, true);
    assert_ne!(a.read(64), b.read(64));
}

fn first_file(d: &DirEntry) -> Option<(u64, usize)> {
    if let Some(f) = d.files.first() {
        return Some((f.ino, f.size));
    }
    for c in d.dirs.iter() {
        if let Some(found) = first_file(c) {
            return Some(found);
        }
    }
    None
}

#[test]
fn read_offset_consistency() {
    let fs = TreeFs::new(small_tree(3));
    let (ino, size) = first_file(&fs.root).expect("tree should hold a file");
    assert!(size >= 10);
    let whole = fs.read(ino, 0, size as u32).unwrap();
    assert_eq!(whole.len(), size);
    for (off, len) in [(0usize, 10usize), (1, 5), (7, size - 7), (size - 1, 1)] {
        let part = fs.read(ino, off as u64, len as u32).unwrap();
        assert_eq!(part.as_slice(), &whole[off..off + len]);
    }
}

#[test]
fn read_truncates_at_declared_size() {
    let fs = TreeFs::new(small_tree(3));
    let (ino, size) = first_file(&fs.root).expect("tree should hold a file");
    let over = fs.read(ino, 0, u32::MAX).unwrap();
    assert_eq!(over.len(), size.min(u32::MAX as usize));
    let past = fs.read(ino, size as u64 + 5, 10).unwrap();
    assert!(past.is_empty());
}

#[test]
fn full_read_equals_reader_content() {
    // What the serving path answers for a whole file is exactly what a
    // fresh reader hands the materializer.
    let fs = TreeFs::new(small_tree(8));
    let (ino, size) = first_file(&fs.root).expect("tree should hold a file");
    let served = fs.read(ino, 0, size as u32).unwrap();
    fn find<'a>(d: &'a DirEntry, ino: u64) -> Option<&'a seedtree::tree::FileEntry> {
        if let Some(f) = d.files.iter().find(|f| f.ino == ino) {
            return Some(f);
        }
        d.dirs.iter().find_map(|c| find(c, ino))
    }
    let f = find(&fs.root, ino).unwrap();
    let mut reader = f.get_reader();
    let mut copied = Vec::new();
    loop {
        let chunk = reader.read(512);
        if chunk.is_empty() {
            break;
        }
        copied.extend(chunk);
    }
    assert_eq!(copied.len(), size);
    assert_eq!(served, copied);
}

#[test]
fn read_errors() {
    let fs = TreeFs::new(small_tree(3));
    assert_eq!(fs.read(1, 0, 10).unwrap_err(), FsError::IsDirectory);
    assert_eq!(fs.read(u64::MAX, 0, 10).unwrap_err(), FsError::NotFound);
}

#[test]
fn open_distinguishes_kinds() {
    let fs = TreeFs::new(small_tree(3));
    let (ino, _) = first_file(&fs.root).unwrap();
    assert!(fs.open(ino).is_ok());
    assert_eq!(fs.open(1).unwrap_err(), FsError::IsDirectory);
    assert_eq!(fs.open(u64::MAX).unwrap_err(), FsError::NotFound);
    assert!(fs.open_directory(1).is_ok());
    assert_eq!(fs.open_directory(ino).unwrap_err(), FsError::NotADirectory);
    assert_eq!(fs.open_directory(u64::MAX).unwrap_err(), FsError::NotFound);
}

#[test]
fn attributes_are_fixed_and_read_only() {
    let fs = TreeFs::new(small_tree(3));
    let (ino, size) = first_file(&fs.root).unwrap();
    let fa = fs.get_attributes(ino).unwrap();
    assert_eq!(fa.ino, ino);
    assert_eq!(fa.size, size as u64);
    assert_eq!(fa.kind, NodeKind::RegularFile);
    assert_eq!(fa.perm, 0o555);
    assert_eq!(fa.nlink, 2);
    assert_eq!(fa.uid, 1000);
    assert_eq!(fa.gid, 1000);
    let da = fs.get_attributes(1).unwrap();
    assert_eq!(da.kind, NodeKind::Directory);
    assert_eq!(da.size, 0);
    assert_eq!(fs.get_attributes(u64::MAX).unwrap_err(), FsError::NotFound);
}

#[test]
fn lookup_finds_children_by_name() {
    let fs = TreeFs::new(small_tree(3));
    let child_name = fs.root.files.first().map(|f| f.name.clone()).unwrap();
    let child_ino = fs.root.files.first().map(|f| f.ino).unwrap();
    let fa = fs.lookup(1, &child_name).unwrap();
    assert_eq!(fa.ino, child_ino);
    assert_eq!(fa.kind, NodeKind::RegularFile);
    let sub = fs.root.dirs.first().unwrap();
    let da = fs.lookup(1, &sub.name).unwrap();
    assert_eq!(da.ino, sub.ino);
    assert_eq!(da.kind, NodeKind::Directory);
    assert_eq!(fs.lookup(1, b"no-such-name").unwrap_err(), FsError::NotFound);
    assert_eq!(fs.lookup(child_ino, b"x").unwrap_err(), FsError::NotFound);
    assert_eq!(fs.lookup(u64::MAX, b"x").unwrap_err(), FsError::NotFound);
}

fn full_listing(fs: &TreeFs, ino: u64, page: usize) -> Vec<DirListEntry> {
    let mut all = Vec::new();
    let mut cookie = 0u64;
    loop {
        let batch = fs.read_directory(ino, cookie, page).unwrap();
        if batch.is_empty() {
            return all;
        }
        cookie = batch.last().unwrap().next_cookie;
        all.extend(batch);
    }
}

#[test]
fn listing_is_complete_and_ordered() {
    let fs = TreeFs::new(small_tree(11));
    let all = full_listing(&fs, 1, 1000);
    assert_eq!(all.len(), 2 + fs.root.files.len() + fs.root.dirs.len());
    assert_eq!(all[0].name, b".");
    assert_eq!(all[0].ino, 1);
    assert_eq!(all[0].kind, NodeKind::Directory);
    assert_eq!(all[1].name, b"..");
    assert_eq!(all[1].ino, 1);
    for (i, f) in fs.root.files.iter().enumerate() {
        assert_eq!(all[2 + i].name, f.name);
        assert_eq!(all[2 + i].ino, f.ino);
        assert_eq!(all[2 + i].kind, NodeKind::RegularFile);
    }
    let nf = fs.root.files.len();
    for (j, d) in fs.root.dirs.iter().enumerate() {
        assert_eq!(all[2 + nf + j].name, d.name);
        assert_eq!(all[2 + nf + j].ino, d.ino);
        assert_eq!(all[2 + nf + j].kind, NodeKind::Directory);
    }
    for (idx, e) in all.iter().enumerate() {
        assert_eq!(e.next_cookie, idx as u64 + 1);
    }
}

#[test]
fn paginated_listing_matches_single_call() {
    let fs = TreeFs::new(small_tree(11));
    let whole = full_listing(&fs, 1, 1000);
    for page in [1usize, 2, 3] {
        let paged = full_listing(&fs, 1, page);
        assert_eq!(paged.len(), whole.len());
        for (a, b) in paged.iter().zip(whole.iter()) {
            assert_eq!(a.ino, b.ino);
            assert_eq!(a.name, b.name);
            assert_eq!(a.kind, b.kind);
            assert_eq!(a.next_cookie, b.next_cookie);
        }
    }
}

#[test]
fn listing_errors() {
    let fs = TreeFs::new(small_tree(11));
    let (ino, _) = first_file(&fs.root).unwrap();
    assert_eq!(fs.read_directory(ino, 0, 10).unwrap_err(), FsError::NotADirectory);
    assert_eq!(fs.read_directory(u64::MAX, 0, 10).unwrap_err(), FsError::NotFound);
}

#[test]
fn parse_range_accepts_plain_ranges() {
    assert_eq!(parse_range_64(b"10..20").unwrap(), U64Range { start: 10, end: 20 });
    assert_eq!(parse_range_64(b"0..5").unwrap(), U64Range { start: 0, end: 5 });
    assert_eq!(
        parse_range_usize(b"10..1000000").unwrap(),
        UsizeRange { start: 10, end: 1000000 },
    );
}

#[test]
fn parse_range_rejects_bad_text() {
    assert_eq!(parse_range_64(b"1020").unwrap_err(), RangeParseError::NotARange);
    assert_eq!(parse_range_64(b"").unwrap_err(), RangeParseError::NotARange);
    assert_eq!(parse_range_64(b"a..5").unwrap_err(), RangeParseError::InvalidStart);
    assert_eq!(parse_range_64(b"..5").unwrap_err(), RangeParseError::InvalidStart);
    assert_eq!(parse_range_64(b"5..b").unwrap_err(), RangeParseError::InvalidEnd);
    assert_eq!(parse_range_64(b"5..").unwrap_err(), RangeParseError::InvalidEnd);
    assert_eq!(
        parse_range_64(b"99999999999999999999..5").unwrap_err(),
        RangeParseError::InvalidStart,
    );
    assert_eq!(parse_range_usize(b"3..x").unwrap_err(), RangeParseError::InvalidEnd);
    // The split happens at the first separator.
    assert_eq!(parse_range_64(b"1..2..3").unwrap_err(), RangeParseError::InvalidEnd);
}

#[test]
fn no_entry_message() {
    assert_eq!(seedtree::tree::NoEntry.message(), "No entry found");
}

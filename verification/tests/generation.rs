//! The build side: configuration, the engine's draws, the tree builder
//! and the range parser, held against concrete values and against the
//! underlying generator crates driven directly.

use rand::distributions::Alphanumeric;
use rand::rngs::SmallRng;
use rand::{Rng, SeedableRng};

use seedtree::random::{ConfigError, Context, Engine, U64Range, UsizeRange, RATIO_DENOMINATOR};
use seedtree::tree::DirEntry;
use seedtree::ContextBuilder;

fn builder(
    seed: u64,
    dir_depth: (u64, u64),
    nb_dir_child: (u64, u64),
    nb_file_child: (u64, u64),
    ratio_num: u64,
    file_len: (usize, usize),
) -> ContextBuilder {
    let mut b = ContextBuilder::new();
    b.seed(seed)
        .dir_depth(U64Range { start: dir_depth.0, end: dir_depth.1 })
        .nb_dir_child(U64Range { start: nb_dir_child.0, end: nb_dir_child.1 })
        .nb_file_child(U64Range { start: nb_file_child.0, end: nb_file_child.1 })
        .binary_ratio(ratio_num)
        .file_len(UsizeRange { start: file_len.0, end: file_len.1 });
    b
}

fn build(b: ContextBuilder) -> DirEntry {
    let (ctx, mut eng) = b.create().expect("configuration should be accepted");
    DirEntry::new_root(ctx, &mut eng).expect("identifier space cannot run out here")
}

fn assert_same_tree(a: &DirEntry, b: &DirEntry) {
    assert_eq!(a.name, b.name);
    assert_eq!(a.ino, b.ino);
    assert_eq!(a.parent_ino, b.parent_ino);
    assert_eq!(a.files.len(), b.files.len());
    assert_eq!(a.dirs.len(), b.dirs.len());
    for (fa, fb) in a.files.iter().zip(b.files.iter()) {
        assert_eq!(fa.name, fb.name);
        assert_eq!(fa.ino, fb.ino);
        assert_eq!(fa.parent_ino, fb.parent_ino);
        assert_eq!(fa.seed, fb.seed);
        assert_eq!(fa.is_binary, fb.is_binary);
        assert_eq!(fa.size, fb.size);
    }
    for (da, db) in a.dirs.iter().zip(b.dirs.iter()) {
        assert_same_tree(da, db);
    }
}

fn collect_inos(d: &DirEntry, out: &mut Vec<u64>) {
    out.push(d.ino);
    for c in d.dirs.iter() {
        collect_inos(c, out);
    }
    for f in d.files.iter() {
        out.push(f.ino);
    }
}

fn check_links(d: &DirEntry) {
    for f in d.files.iter() {
        assert_eq!(f.parent_ino, d.ino);
    }
    for c in d.dirs.iter() {
        assert_eq!(c.parent_ino, d.ino);
        check_links(c);
    }
}

#[test]
fn scenario_two_text_files() {
    let root = build(builder(0, (0, 1), (0, 1), (2, 3), 0, (10, 11)));
    assert_eq!(root.ino, 1);
    assert_eq!(root.parent_ino, 1);
    assert!(root.name.is_empty());
    assert_eq!(root.dirs.len(), 0);
    assert_eq!(root.files.len(), 2);
    let mut inos: Vec<u64> = root.files.iter().map(|f| f.ino).collect();
    inos.sort();
    assert_eq!(inos, vec![2, 3]);
    for f in root.files.iter() {
        assert!(!f.is_binary);
        assert_eq!(f.size, 10 >> 3);
        assert!(f.name.ends_with(b".text"));
        assert_eq!(f.name.len(), 7 + ".text".len());
    }
}

#[test]
fn build_is_deterministic() {
    let b1 = builder(42, (2, 4), (0, 3), (0, 5), RATIO_DENOMINATOR / 2, (10, 200));
    let b2 = builder(42, (2, 4), (0, 3), (0, 5), RATIO_DENOMINATOR / 2, (10, 200));
    let t1 = build(b1);
    let t2 = build(b2);
    assert_same_tree(&t1, &t2);
}

#[test]
fn different_seeds_differ() {
    let t1 = build(builder(1, (1, 2), (1, 2), (2, 4), 0, (10, 20)));
    let t2 = build(builder(2, (1, 2), (1, 2), (2, 4), 0, (10, 20)));
    // With different root seeds the drawn names almost surely differ;
    // for these two seeds they do.
    let n1: Vec<&[u8]> = t1.files.iter().map(|f| f.name.as_slice()).collect();
    let n2: Vec<&[u8]> = t2.files.iter().map(|f| f.name.as_slice()).collect();
    assert_ne!(n1, n2);
}

#[test]
fn inos_unique_root_first() {
    let root = build(builder(7, (2, 4), (0, 4), (0, 6), RATIO_DENOMINATOR / 5, (10, 50)));
    let mut inos = Vec::new();
    collect_inos(&root, &mut inos);
    assert_eq!(inos[0], 1);
    // Depth-first numbering hands out consecutive identifiers.
    let expected: Vec<u64> = (1..=inos.len() as u64).collect();
    assert_eq!(inos, expected);
    let mut sorted = inos.clone();
    sorted.sort();
    sorted.dedup();
    assert_eq!(sorted.len(), inos.len());
    check_links(&root);
}

#[test]
fn draws_match_the_engine_crate() {
    // The context must consume its engine in the documented order:
    // file count, depth draw, then directory count; names as seven
    // alphanumeric samples; then kind, length and seed per file.
    let ctx = Context {
        dir_depth: U64Range { start: 3, end: 6 },
        nb_dir_child: U64Range { start: 1, end: 5 },
        nb_file_child: U64Range { start: 2, end: 9 },
        binary_ratio_num: 0,
        file_len: UsizeRange { start: 10, end: 1000 },
    };
    let mut eng = Engine::new(99);
    let (nf, nd) = ctx.nb_child(&mut eng);
    let name = ctx.name(&mut eng);
    let len = ctx.file_len(&mut eng);
    let is_bin = ctx.is_binary(&mut eng);
    let fseed = ctx.get(&mut eng);

    let mut rng = SmallRng::seed_from_u64(99);
    let exp_nf = rng.gen_range(2u64..9);
    let depth = rng.gen_range(3u64..6);
    assert!(depth > 0);
    let exp_nd = rng.gen_range(1u64..5);
    let exp_name: Vec<u8> = (0..7).map(|_| rng.sample(Alphanumeric)).collect();
    let exp_len = rng.gen_range(10usize..1000);
    let exp_bin = (rng.gen::<u32>() as u64) < 0;
    let exp_seed = rng.gen::<u64>();

    assert_eq!(nf, exp_nf);
    assert_eq!(nd, exp_nd);
    assert_eq!(name, exp_name);
    assert_eq!(len, exp_len);
    assert_eq!(is_bin, exp_bin);
    assert_eq!(fseed, exp_seed);
    assert!(name.iter().all(|b| b.is_ascii_alphanumeric()));
}

#[test]
fn text_length_is_an_eighth() {
    let ctx = Context {
        dir_depth: U64Range { start: 1, end: 2 },
        nb_dir_child: U64Range { start: 0, end: 1 },
        nb_file_child: U64Range { start: 0, end: 1 },
        binary_ratio_num: 0,
        file_len: UsizeRange { start: 80, end: 81 },
    };
    let mut eng = Engine::new(5);
    assert_eq!(ctx.text_len(&mut eng), 10);
}

#[test]
fn kind_draw_follows_ratio_numerator() {
    let ctx_never = Context {
        dir_depth: U64Range { start: 1, end: 2 },
        nb_dir_child: U64Range { start: 0, end: 1 },
        nb_file_child: U64Range { start: 0, end: 1 },
        binary_ratio_num: 0,
        file_len: UsizeRange { start: 1, end: 2 },
    };
    let ctx_always = Context { binary_ratio_num: RATIO_DENOMINATOR, ..ctx_never };
    for seed in 0..32u64 {
        let mut e1 = Engine::new(seed);
        assert!(!ctx_never.is_binary(&mut e1));
        let mut e2 = Engine::new(seed);
        assert!(ctx_always.is_binary(&mut e2));
    }
}

#[test]
fn config_rejects_empty_range() {
    let b = builder(0, (4, 4), (0, 5), (0, 10), 0, (10, 100));
    match b.create() {
        Err(e) => assert_eq!(e, ConfigError::EmptyRange),
        Ok(_) => panic!("an empty range must be rejected"),
    }
}

#[test]
fn config_rejects_ratio_above_denominator() {
    let b = builder(0, (4, 6), (0, 5), (0, 10), RATIO_DENOMINATOR + 1, (10, 100));
    match b.create() {
        Err(e) => assert_eq!(e, ConfigError::RatioOutOfRange),
        Ok(_) => panic!("an oversized ratio must be rejected"),
    }
}

#[test]
fn builder_defaults() {
    let b = ContextBuilder::new();
    assert_eq!(b.seed, 0);
    assert_eq!(b.dir_depth, U64Range { start: 4, end: 6 });
    assert_eq!(b.nb_dir_child, U64Range { start: 0, end: 5 });
    assert_eq!(b.nb_file_child, U64Range { start: 0, end: 10 });
    assert_eq!(b.file_len, UsizeRange { start: 10, end: 1000000 });
    // The default ratio numerator stands for one fifth.
    assert_eq!(b.binary_ratio_num, (0.2f64 * RATIO_DENOMINATOR as f64) as u64);
    assert_eq!(ContextBuilder::default(), ContextBuilder::new());
}

#[test]
fn nb_files_counts_all_levels() {
    let root = build(builder(7, (2, 4), (0, 4), (0, 6), 0, (10, 50)));
    fn manual(d: &DirEntry) -> u64 {
        d.files.len() as u64 + d.dirs.iter().map(manual).sum::<u64>()
    }
    assert_eq!(root.nb_files(), manual(&root));
}

#[test]
fn size_sums_all_levels() {
    let root = build(builder(7, (2, 4), (0, 4), (0, 6), 0, (10, 50)));
    fn manual(d: &DirEntry) -> usize {
        d.files.iter().map(|f| f.size).sum::<usize>() + d.dirs.iter().map(manual).sum::<usize>()
    }
    assert_eq!(root.size(), manual(&root));
}

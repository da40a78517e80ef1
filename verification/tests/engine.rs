use rustic::archiver::{backup_file, fold_summary, restore_file, EntryReport, FileOutcome};
use rustic::backend::{find_starts_with, ChooseBackend, FileType};
use rustic::checks::{check_index_pack, verify_pack};
use rustic::decrypt::unframe;
use rustic::snapshotfile::{select_parent, SnapshotGroup};
use rustic::tree::{check_tree_nodes, check_trees, reuse_parent, Node, NodeMeta, NodeType, Tree};
use rustic::blob::BlobType;
use rustic::chunker::chunk_data;
use rustic::configfile::ConfigFile;
use rustic::crypto::Key;
use rustic::digest::hash;
use rustic::errors::RepoError;
use rustic::id::{bytes_from_hex, Id};
use rustic::idmap::IdMap;
use rustic::indexfile::{IndexBlob, IndexEntry, IndexFile, IndexPack};
use rustic::json::{config_json, index_json, keyfile_json, snapshot_json, tree_json};
use rustic::keyfile::{derive_kek, make_key_file, open_key_file};
use rustic::packer::{build_pack, isqrt, PackSizer};
use rustic::packfile::{PackHeader, PackHeaderLength, PackHeaderRef};
use rustic::prune::{LimitOption, KindMap, PackToDo, Pruner};
use rustic::retention::{decide_forget_group, equal_day, equal_week, KeepOptions};
use rustic::snapshotfile::{DeleteOption, SnapshotFile, StringList};
use rustic::time::Time;

fn tid(b: u8) -> Id {
    Id::from_bytes(vec![b; 32])
}

fn t(year: u32, month: u8, day: u8, hour: u8) -> Time {
    Time::new(year, month, day, hour, 0, 0).unwrap()
}

fn snap(b: u8, time: Time) -> SnapshotFile {
    SnapshotFile {
        id: tid(b),
        time,
        parent: None,
        tree: tid(b),
        label: String::new(),
        hostname: String::from("host"),
        paths: StringList::new(),
        tags: StringList::new(),
        delete: DeleteOption::NotSet,
        summary: None,
    }
}

#[test]
fn id_hex_round_trip() {
    let id = tid(0xab);
    let hex = id.to_hex();
    let s: String = hex.iter().collect();
    assert_eq!(s, "ab".repeat(32));
    let back = Id::from_hex(&hex).unwrap();
    assert!(back.same(&id));
    assert!(Id::from_hex(&['a', 'b']).is_none());
}

#[test]
fn hex_decode_rejects_bad_digits() {
    assert!(bytes_from_hex(&['0', 'g']).is_none());
    assert!(bytes_from_hex(&['0']).is_none());
    let v = bytes_from_hex(&['0', 'f', 'f', '0']).unwrap();
    assert_eq!(v, vec![0x0f, 0xf0]);
}

#[test]
fn calendar_fields() {
    let d = t(2023, 3, 1, 12);
    assert_eq!(d.ordinal(), 60);
    let leap = t(2024, 3, 1, 12);
    assert_eq!(leap.ordinal(), 61);
    // 2026-01-01 falls in the last ISO week of 2025.
    assert_eq!(t(2026, 1, 1, 0).iso_week(), 1);
    assert_eq!(t(2021, 1, 1, 0).iso_week(), 53);
    assert_eq!(t(1970, 1, 1, 0).secs(), 0);
    assert_eq!(t(1970, 1, 2, 0).secs(), 86400);
}

#[test]
fn bucket_predicates() {
    let a = snap(1, t(2023, 5, 10, 8));
    let b = snap(2, t(2023, 5, 10, 9));
    let c = snap(3, t(2023, 5, 17, 9));
    assert!(equal_day(&a, &b));
    assert!(!equal_day(&a, &c));
    assert!(equal_week(&a, &b));
    assert!(!equal_week(&b, &c));
}

#[test]
fn retention_keeps_buckets() {
    // Snapshots at t, t-1d, t-7d, t-30d, t-365d, newest first.
    let snaps = vec![
        snap(1, t(2023, 6, 15, 12)),
        snap(2, t(2023, 6, 14, 12)),
        snap(3, t(2023, 6, 8, 12)),
        snap(4, t(2023, 5, 16, 12)),
        snap(5, t(2022, 6, 15, 12)),
    ];
    let mut opts = KeepOptions::default();
    opts.keep_daily = 2;
    opts.keep_weekly = 1;
    opts.keep_monthly = 1;
    opts.keep_yearly = 1;
    let now = t(2023, 6, 15, 13);
    // The newest snapshot opens (and consumes) every coarse bucket, so
    // the daily counter is what keeps the second snapshot.
    let decisions = decide_forget_group(&mut opts, &snaps, &now, false);
    assert_eq!(decisions, vec![true, true, false, false, false]);

    // Without the t-1d snapshot the daily counter reaches one week back.
    let snaps2 = vec![
        snap(1, t(2023, 6, 15, 12)),
        snap(3, t(2023, 6, 8, 12)),
        snap(4, t(2023, 5, 16, 12)),
        snap(5, t(2022, 6, 15, 12)),
    ];
    let mut opts2 = KeepOptions::default();
    opts2.keep_daily = 2;
    opts2.keep_weekly = 1;
    opts2.keep_monthly = 1;
    opts2.keep_yearly = 1;
    let decisions2 = decide_forget_group(&mut opts2, &snaps2, &now, false);
    assert_eq!(decisions2, vec![true, true, false, false]);
}

#[test]
fn retention_delete_marks_win() {
    let mut kept = snap(1, t(2023, 6, 15, 12));
    kept.delete = DeleteOption::Never;
    let mut doomed = snap(2, t(2023, 6, 14, 12));
    doomed.delete = DeleteOption::After(t(2023, 6, 14, 13));
    let snaps = vec![kept, doomed];
    let mut opts = KeepOptions::default();
    opts.keep_last = -1;
    let now = t(2023, 6, 15, 13);
    let decisions = decide_forget_group(&mut opts, &snaps, &now, false);
    assert_eq!(decisions, vec![true, false]);
}

#[test]
fn retention_default_keeps_everything() {
    let snaps = vec![snap(1, t(2023, 6, 15, 12)), snap(2, t(2023, 6, 14, 12))];
    let mut opts = KeepOptions::default();
    let now = t(2023, 6, 16, 0);
    let decisions = decide_forget_group(&mut opts, &snaps, &now, false);
    assert_eq!(decisions, vec![true, true]);
    let mut opts2 = KeepOptions::default();
    let decisions2 = decide_forget_group(&mut opts2, &snaps, &now, true);
    assert_eq!(decisions2, vec![false, false]);
}

#[test]
fn chunker_deterministic_and_lossless() {
    let mut data = Vec::new();
    for i in 0..700000u64 {
        data.push((i * 31 % 251) as u8);
    }
    let poly = 0x3da3358b4dc173u64;
    let a = chunk_data(poly, &data);
    let b = chunk_data(poly, &data);
    assert_eq!(a, b);
    let joined: Vec<u8> = a.iter().flatten().copied().collect();
    assert_eq!(joined, data);
}

#[test]
fn backup_restore_round_trip_and_dedup() {
    let mut data = Vec::new();
    for i in 0..600000u64 {
        data.push((i % 241) as u8);
    }
    let poly = 0x3da3358b4dc173u64;
    let mut table: IdMap<Vec<u8>> = IdMap::new();
    let (ids, added) = backup_file(poly, &data, &mut table);
    assert!(added > 0);
    let restored = restore_file(&table, &ids).unwrap();
    assert_eq!(restored, data);
    // A second run over the same bytes adds nothing new.
    let (ids2, added2) = backup_file(poly, &data, &mut table);
    assert_eq!(added2, 0);
    assert_eq!(ids.len(), ids2.len());
}

#[test]
fn crypto_round_trip_and_auth() {
    let key = Key::from_bytes(vec![7u8; 64]);
    let nonce = vec![5u8; 16];
    let cipher = key.encrypt(&nonce, b"attack at dawn");
    assert_eq!(cipher.len(), 14 + 32);
    let plain = key.decrypt(&cipher).unwrap();
    assert_eq!(plain.as_slice(), b"attack at dawn");
    let mut corrupt = cipher.clone();
    corrupt[20] ^= 1;
    assert_eq!(key.decrypt(&corrupt).unwrap_err(), RepoError::Auth);
    let other = Key::from_bytes(vec![8u8; 64]);
    assert_eq!(other.decrypt(&cipher).unwrap_err(), RepoError::Auth);
}

#[test]
fn pack_build_verify_and_corruption() {
    let key = Key::from_bytes(vec![1u8; 64]);
    let chunks = vec![vec![1u8; 100], vec![2u8; 200]];
    let nonces = vec![vec![3u8; 16], vec![4u8; 16]];
    let hnonce = vec![5u8; 16];
    let (bytes, ip) = build_pack(&key, BlobType::Data, &chunks, &nonces, &hnonce, None);
    // The pack id is the hash of the pack bytes.
    assert!(hash(&bytes).same(&ip.id));
    assert_eq!(ip.blobs.len(), 2);
    assert_eq!(ip.blobs[0].offset, 0);
    assert_eq!(ip.blobs[0].length, 132);
    assert_eq!(ip.blobs[1].offset, 132);
    // Each blob region decrypts back to its plaintext, whose hash is its id.
    for (i, b) in ip.blobs.iter().enumerate() {
        let region = &bytes[b.offset as usize..(b.offset + b.length) as usize];
        let plain = key.decrypt(region).unwrap();
        assert_eq!(plain, chunks[i].clone());
        assert!(hash(&plain).same(&b.id));
    }
    // The trailer parses back to the catalogued entries.
    let hlen = PackHeaderLength::from_binary(&bytes[bytes.len() - 4..])
        .unwrap()
        .to_u32() as usize;
    let enc_header = &bytes[bytes.len() - 4 - hlen..bytes.len() - 4];
    let header_plain = key.decrypt(enc_header).unwrap();
    let parsed = PackHeader::from_binary(&header_plain).unwrap().into_blobs();
    assert_eq!(parsed.len(), 2);
    assert!(parsed[0].id.same(&ip.blobs[0].id));
    assert_eq!(parsed[1].offset, 132);
    // One flipped byte in a blob makes its decryption fail.
    let mut corrupt = bytes.clone();
    corrupt[10] ^= 1;
    assert!(key.decrypt(&corrupt[0..132]).is_err());
    // And the pack no longer matches its id.
    assert!(!hash(&corrupt).same(&ip.id));
}

#[test]
fn header_sizes() {
    let blobs = vec![
        IndexBlob { id: tid(1), tpe: BlobType::Data, offset: 0, length: 100, uncompressed_length: None },
        IndexBlob { id: tid(2), tpe: BlobType::Data, offset: 100, length: 50, uncompressed_length: Some(80) },
    ];
    let r = PackHeaderRef { blobs: &blobs };
    assert_eq!(r.size(), 32 + 37 + 41);
    assert_eq!(r.pack_size(), 32 + 4 + 37 + 41 + 150);
    let bin = r.to_binary();
    assert_eq!(bin.len(), 37 + 41);
    let parsed = PackHeader::from_binary(&bin).unwrap().into_blobs();
    assert_eq!(parsed.len(), 2);
    assert_eq!(parsed[1].uncompressed_length, Some(80));
}

#[test]
fn config_poly_round_trip() {
    let cfg = ConfigFile::new(2, tid(9), 0x3da3358b4dc173);
    let s: String = cfg.chunker_polynomial.iter().collect();
    assert_eq!(s, "3da3358b4dc173");
    assert_eq!(cfg.poly().unwrap(), 0x3da3358b4dc173);
    let bad = ConfigFile { version: 2, id: tid(9), chunker_polynomial: vec!['z'] };
    assert_eq!(bad.poly().unwrap_err(), RepoError::Config);
}

#[test]
fn file_type_names() {
    assert_eq!(FileType::Config.name(), "config");
    assert_eq!(FileType::Snapshot.name(), "snapshots");
    assert_eq!(FileType::Pack.name(), "data");
    assert!(FileType::Index.is_cacheable());
    assert!(!FileType::Pack.is_cacheable());
}

#[test]
fn backend_choice() {
    let u: Vec<char> = "local:/tmp/r".chars().collect();
    match ChooseBackend::from_url(&u) {
        ChooseBackend::Local(p) => assert_eq!(p.iter().collect::<String>(), "/tmp/r"),
        _ => panic!("wrong transport"),
    }
    let u2: Vec<char> = "rest:http://h".chars().collect();
    assert!(matches!(ChooseBackend::from_url(&u2), ChooseBackend::Rest(_)));
    let u3: Vec<char> = "/bare/path".chars().collect();
    assert!(matches!(ChooseBackend::from_url(&u3), ChooseBackend::Local(_)));
}

#[test]
fn prefix_search() {
    let list = vec![tid(0xab), tid(0xac), tid(0xab)];
    let queries = vec![
        "ac".chars().collect::<Vec<char>>(),
        "ff".chars().collect::<Vec<char>>(),
        "ab".chars().collect::<Vec<char>>(),
    ];
    let r = find_starts_with(&list, &queries);
    assert!(r[0].is_ok());
    assert!(matches!(r[1], Err(RepoError::NotFound)));
    assert!(matches!(r[2], Err(RepoError::Ambiguous)));
}

#[test]
fn isqrt_values() {
    assert_eq!(isqrt(0), 0);
    assert_eq!(isqrt(15), 3);
    assert_eq!(isqrt(16), 4);
    assert_eq!(isqrt(u64::MAX), 4294967295);
}

fn pack_entry(b: u8, nblobs: u8, marked: bool, time: Option<Time>) -> IndexPack {
    let mut blobs = Vec::new();
    let mut offset = 0u32;
    for i in 0..nblobs {
        blobs.push(IndexBlob {
            id: tid(b.wrapping_mul(16).wrapping_add(i)),
            tpe: BlobType::Data,
            offset,
            length: 100,
            uncompressed_length: None,
        });
        offset += 100;
    }
    let _ = marked;
    IndexPack { id: tid(b), time, size: None, blobs }
}

#[test]
fn prune_unused_and_tombstones() {
    // One live pack whose blobs nothing needs, one old tombstoned pack.
    let now = t(2023, 6, 15, 12);
    let old_time = t(2023, 1, 1, 0);
    let live = pack_entry(1, 2, false, Some(old_time));
    let tomb = pack_entry(2, 2, true, Some(old_time));
    let index = IndexFile { packs: vec![live], packs_to_delete: vec![tomb] };
    let used = IdMap::new();
    let mut existing = IdMap::new();
    existing.insert(tid(1), pack_entry(1, 2, false, None).pack_size());
    existing.insert(tid(2), pack_entry(2, 2, true, None).pack_size());
    let mut pruner = Pruner::new(used, existing, vec![(tid(9), index)], now);
    pruner.count_used_blobs();
    pruner.check().unwrap();
    let sizer = KindMap {
        tree: PackSizer::from_total_size(BlobType::Tree, 0),
        data: PackSizer::from_total_size(BlobType::Data, 0),
    };
    // keep_pack 0: old unused packs are tombstoned; keep_delete 0: old
    // tombstones are deleted at once.
    pruner.decide_packs(0, 0, false, false, &sizer);
    let todos: Vec<PackToDo> = pruner.index_files[0].packs.iter().map(|p| p.to_do).collect();
    assert_eq!(todos, vec![PackToDo::MarkDelete, PackToDo::Delete]);
    pruner.decide_repack(&LimitOption::Unlimited, &LimitOption::Percentage(5), false, false, &sizer);
    pruner.check_existing_packs().unwrap();
    let repacks = pruner.repack_packs();
    assert!(repacks.is_empty());
}

#[test]
fn prune_recovers_needed_tombstones() {
    let now = t(2023, 6, 15, 12);
    let old_time = t(2023, 1, 1, 0);
    let tomb = pack_entry(3, 1, true, Some(old_time));
    let needed = tomb.blobs[0].id.clone();
    let index = IndexFile { packs: vec![], packs_to_delete: vec![tomb] };
    let mut used = IdMap::new();
    used.insert(needed, 0u8);
    let mut existing = IdMap::new();
    existing.insert(tid(3), pack_entry(3, 1, true, None).pack_size());
    let mut pruner = Pruner::new(used, existing, vec![(tid(9), index)], now);
    pruner.count_used_blobs();
    pruner.check().unwrap();
    let sizer = KindMap {
        tree: PackSizer::from_total_size(BlobType::Tree, 0),
        data: PackSizer::from_total_size(BlobType::Data, 0),
    };
    pruner.decide_packs(0, 0, false, false, &sizer);
    assert_eq!(pruner.index_files[0].packs[0].to_do, PackToDo::Recover);
}

#[test]
fn tags_and_string_lists() {
    let mut tags = StringList::new();
    assert!(tags.add(&String::from("prod")));
    assert!(!tags.add(&String::from("prod")));
    assert!(tags.add(&String::from("db")));
    let mut want = StringList::new();
    want.add(&String::from("prod"));
    assert!(tags.contains_all(&want));
    assert!(tags.matches(&vec![want]));
    assert!(tags.remove_str(&String::from("db")));
    assert!(!tags.remove_str(&String::from("db")));
}

#[test]
fn verify_pack_accepts_and_rejects() {
    let key = Key::from_bytes(vec![4u8; 64]);
    let chunks = vec![vec![9u8; 50], vec![8u8; 70]];
    let nonces = vec![vec![1u8; 16], vec![2u8; 16]];
    let hnonce = vec![3u8; 16];
    let (bytes, mut ip) = build_pack(&key, BlobType::Data, &chunks, &nonces, &hnonce, None);
    assert!(verify_pack(&key, &ip, &bytes).is_ok());
    // One flipped byte fails the check.
    let mut corrupt = bytes.clone();
    corrupt[5] ^= 1;
    assert_eq!(verify_pack(&key, &ip, &corrupt).unwrap_err(), RepoError::Integrity);
    // A truncated pack fails the size check.
    assert_eq!(verify_pack(&key, &ip, &bytes[1..]).unwrap_err(), RepoError::Integrity);
    // A wrong catalogued length fails the header comparison.
    ip.blobs[0].length += 1;
    ip.size = Some(bytes.len() as u32 + 1);
    assert!(verify_pack(&key, &ip, &bytes).is_err());
}

#[test]
fn index_pack_soundness() {
    let good = IndexPack {
        id: tid(7),
        time: None,
        size: None,
        blobs: vec![
            IndexBlob { id: tid(1), tpe: BlobType::Tree, offset: 0, length: 40, uncompressed_length: None },
            IndexBlob { id: tid(2), tpe: BlobType::Tree, offset: 40, length: 50, uncompressed_length: None },
        ],
    };
    assert!(check_index_pack(&good));
    let mut gap = IndexPack { id: tid(7), time: None, size: None, blobs: good.blobs.clone() };
    gap.blobs[1].offset = 41;
    assert!(!check_index_pack(&gap));
    let mut mixed = IndexPack { id: tid(7), time: None, size: None, blobs: good.blobs.clone() };
    mixed.blobs[1].tpe = BlobType::Data;
    assert!(!check_index_pack(&mixed));
}

#[test]
fn prune_plan_actions() {
    let now = t(2023, 6, 15, 12);
    let old_time = t(2023, 1, 1, 0);
    let live = pack_entry(1, 2, false, Some(old_time));
    let tomb = pack_entry(2, 2, true, Some(old_time));
    let index = IndexFile { packs: vec![live], packs_to_delete: vec![tomb] };
    let used = IdMap::new();
    let mut existing = IdMap::new();
    existing.insert(tid(1), pack_entry(1, 2, false, None).pack_size());
    existing.insert(tid(2), pack_entry(2, 2, true, None).pack_size());
    let mut pruner = Pruner::new(used, existing, vec![(tid(9), index)], now);
    pruner.count_used_blobs();
    pruner.check().unwrap();
    let sizer = KindMap {
        tree: PackSizer::from_total_size(BlobType::Tree, 0),
        data: PackSizer::from_total_size(BlobType::Data, 0),
    };
    pruner.decide_packs(0, 0, false, false, &sizer);
    pruner.decide_repack(&LimitOption::Unlimited, &LimitOption::Percentage(5), false, false, &sizer);
    pruner.check_existing_packs().unwrap();
    pruner.filter_index_files(false);
    let plan = pruner.plan_prune(false, false).unwrap();
    // The unused live pack is tombstoned with the run's time; the old
    // tombstone is removed outright.
    assert_eq!(plan.index_live.len(), 0);
    assert_eq!(plan.index_tombstones.len(), 1);
    assert!(plan.index_tombstones[0].id.same(&tid(1)));
    assert_eq!(plan.index_tombstones[0].time, Some(now));
    assert_eq!(plan.delete_data.len(), 1);
    assert!(plan.delete_data[0].same(&tid(2)));
    assert!(plan.delete_tree.is_empty());
    assert!(plan.repack.is_empty());
    assert_eq!(plan.remove_indexes.len(), 1);
    assert!(plan.remove_indexes[0].same(&tid(9)));
}

#[test]
fn tree_references_resolve() {
    let mut index: IdMap<IndexEntry> = IdMap::new();
    index.insert(
        tid(1),
        IndexEntry { pack: tid(9), tpe: BlobType::Data, offset: 0, length: 40, uncompressed_length: None },
    );
    let file_node = Node {
        name: String::from("a"),
        node_type: NodeType::File,
        meta: NodeMeta::empty(),
        content: Some(vec![tid(1)]),
        subtree: None,
    };
    let dir_node = Node {
        name: String::from("d"),
        node_type: NodeType::Dir,
        meta: NodeMeta::empty(),
        content: None,
        subtree: Some(tid(2)),
    };
    let tree = Tree { nodes: vec![file_node, dir_node] };
    assert!(check_tree_nodes(&tree, &index));
    let missing = Tree {
        nodes: vec![Node {
            name: String::from("b"),
            node_type: NodeType::File,
            meta: NodeMeta::empty(),
            content: Some(vec![tid(3)]),
            subtree: None,
        }],
    };
    assert!(!check_tree_nodes(&missing, &index));
    let null_dir = Tree {
        nodes: vec![Node {
            name: String::from("n"),
            node_type: NodeType::Dir,
            meta: NodeMeta::empty(),
            content: None,
            subtree: Some(Id::default()),
        }],
    };
    assert!(!check_tree_nodes(&null_dir, &index));
    assert!(check_trees(&vec![tree], &index));
}

#[test]
fn parent_selection() {
    let mut a = snap(1, t(2023, 6, 10, 0));
    a.hostname = String::from("h1");
    let mut b = snap(2, t(2023, 6, 12, 0));
    b.hostname = String::from("h1");
    let mut c = snap(3, t(2023, 6, 14, 0));
    c.hostname = String::from("h2");
    let snaps = vec![a, b, c];
    let group = SnapshotGroup {
        hostname: Some(String::from("h1")),
        label: None,
        paths: None,
        tags: None,
    };
    assert_eq!(select_parent(&snaps, &group), Some(1));
    let none_group = SnapshotGroup {
        hostname: Some(String::from("h3")),
        label: None,
        paths: None,
        tags: None,
    };
    assert_eq!(select_parent(&snaps, &none_group), None);
}

#[test]
fn unframe_dispatch() {
    assert_eq!(unframe(b"{\"version\":2}".to_vec()).unwrap(), b"{\"version\":2}".to_vec());
    assert_eq!(unframe(b"[1,2]".to_vec()).unwrap(), b"[1,2]".to_vec());
    assert_eq!(unframe(Vec::new()).unwrap_err(), RepoError::Format);
    assert_eq!(unframe(vec![7u8, 8u8]).unwrap_err(), RepoError::Format);
    // A leading two with a malformed frame behind it is a format error.
    assert_eq!(unframe(vec![2u8, 0u8, 1u8]).unwrap_err(), RepoError::Format);
}

#[test]
fn json_documents() {
    let cfg = ConfigFile::new(2, tid(0xab), 0x3da3358b4dc173);
    let text: String = config_json(&cfg).iter().collect();
    let expected = format!(
        "{{\"version\":2,\"id\":\"{}\",\"chunker_polynomial\":\"3da3358b4dc173\"}}",
        "ab".repeat(32)
    );
    assert_eq!(text, expected);

    let index = IndexFile {
        packs: vec![IndexPack {
            id: tid(1),
            time: Some(t(2023, 6, 15, 12)),
            size: None,
            blobs: vec![IndexBlob {
                id: tid(2),
                tpe: BlobType::Data,
                offset: 0,
                length: 132,
                uncompressed_length: None,
            }],
        }],
        packs_to_delete: vec![],
    };
    let itext: String = index_json(&index).iter().collect();
    let iexpected = format!(
        "{{\"packs\":[{{\"id\":\"{}\",\"time\":\"2023-06-15T12:00:00Z\",\"blobs\":[{{\"id\":\"{}\",\"type\":\"data\",\"offset\":0,\"length\":132}}]}}],\"packs_to_delete\":[]}}",
        "01".repeat(32),
        "02".repeat(32)
    );
    assert_eq!(itext, iexpected);

    let mut sn = snap(3, t(2023, 6, 15, 12));
    sn.tags.add(&String::from("prod"));
    let stext: String = snapshot_json(&sn).iter().collect();
    let sexpected = format!(
        "{{\"time\":\"2023-06-15T12:00:00Z\",\"tree\":\"{}\",\"paths\":[],\"hostname\":\"host\",\"label\":\"\",\"tags\":[\"prod\"]}}",
        "03".repeat(32)
    );
    assert_eq!(stext, sexpected);
}

#[test]
fn sha256_known_vectors() {
    let abc = hash(b"abc");
    let hex: String = abc.to_hex().iter().collect();
    assert_eq!(hex, "ba7816bf8f01cfea414140de5dae2223b00361a396177a9cb410ff61f20015ad");
    let empty = hash(b"");
    let ehex: String = empty.to_hex().iter().collect();
    assert_eq!(ehex, "e3b0c44298fc1c149afbf4c8996fb92427ae41e4649b934ca495991b7852b855");
}

#[test]
fn key_file_round_trip() {
    let master = Key::from_bytes((0u8..64).collect());
    let salt = vec![9u8; 32];
    let kek = derive_kek(b"correct horse", &salt, 10, 8, 1).unwrap();
    let kf = make_key_file(&kek, &master, &vec![5u8; 16], salt.clone(), 10, 8, 1);
    let opened = open_key_file(b"correct horse", &kf).unwrap();
    assert_eq!(opened.bytes(), master.bytes());
    assert!(open_key_file(b"wrong password", &kf).is_err());
    let text: String = keyfile_json(&kf).iter().collect();
    assert!(text.starts_with("{\"kdf\":\"scrypt\",\"log_n\":10,\"r\":8,\"p\":1,\"salt\":\""));
}

#[test]
fn parent_reuse_rules() {
    let mut meta = NodeMeta::empty();
    meta.size = 100;
    meta.mtime = Time::new(2023, 6, 1, 0, 0, 0);
    meta.ctime = Time::new(2023, 6, 2, 0, 0, 0);
    meta.inode = 42;
    let parent = Node {
        name: String::from("a"),
        node_type: NodeType::File,
        meta,
        content: Some(vec![]),
        subtree: None,
    };
    assert!(reuse_parent(&meta, &parent, false, false));
    let mut other = meta;
    other.ctime = Time::new(2023, 6, 3, 0, 0, 0);
    assert!(!reuse_parent(&other, &parent, false, false));
    assert!(reuse_parent(&other, &parent, true, false));
    let mut moved = meta;
    moved.inode = 43;
    assert!(!reuse_parent(&moved, &parent, false, false));
    assert!(reuse_parent(&moved, &parent, false, true));
    let mut grown = meta;
    grown.size = 101;
    assert!(!reuse_parent(&grown, &parent, true, true));
}

#[test]
fn tree_document() {
    let tree = Tree {
        nodes: vec![Node {
            name: String::from("a"),
            node_type: NodeType::File,
            meta: NodeMeta::empty(),
            content: Some(vec![tid(1)]),
            subtree: None,
        }],
    };
    let text: String = tree_json(&tree).iter().collect();
    let expected = format!(
        "{{\"nodes\":[{{\"name\":\"a\",\"type\":\"file\",\"uid\":0,\"gid\":0,\"mode\":0,\"inode\":0,\"device_id\":0,\"size\":0,\"content\":[\"{}\"]}}]}}",
        "01".repeat(32)
    );
    assert_eq!(text, expected);
}

#[test]
fn summary_fold_counts() {
    let reports = vec![
        EntryReport {
            dir: false,
            outcome: FileOutcome::New,
            bytes_processed: 100,
            data_blobs: 1,
            tree_blobs: 0,
            data_added: 100,
            data_added_packed: 132,
        },
        EntryReport {
            dir: false,
            outcome: FileOutcome::Unmodified,
            bytes_processed: 50,
            data_blobs: 0,
            tree_blobs: 0,
            data_added: 0,
            data_added_packed: 0,
        },
        EntryReport {
            dir: true,
            outcome: FileOutcome::New,
            bytes_processed: 0,
            data_blobs: 0,
            tree_blobs: 1,
            data_added: 40,
            data_added_packed: 72,
        },
    ];
    let start = t(2023, 6, 15, 12);
    let end = t(2023, 6, 15, 13);
    let s = fold_summary(&reports, start, end);
    assert_eq!(s.files_new, 1);
    assert_eq!(s.files_unmodified, 1);
    assert_eq!(s.files_changed, 0);
    assert_eq!(s.dirs_new, 1);
    assert_eq!(s.data_blobs, 1);
    assert_eq!(s.tree_blobs, 1);
    assert_eq!(s.data_added, 140);
    assert_eq!(s.data_added_packed, 204);
    assert_eq!(s.total_files_processed, 2);
    assert_eq!(s.total_bytes_processed, 150);
    assert_eq!(s.backup_start, start);
    assert_eq!(s.backup_end, end);
}

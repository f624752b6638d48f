use rgb_stash::ids::{AnchorId, ContractId, NodeId, SchemaId};
use rgb_stash::index::{AnchorCommitments, Index, IndexError, MemoryIndex};
use rgb_stash::layout::{join_path, ArtifactKind, DiskStorageConfig};
use rgb_stash::snapshot::{decode_records, encode_records, records_as_anchors, RECORD_LEN};
use rgb_stash::storage::{DiskStorage, DiskStorageError, PathState};

fn config(root: &str) -> DiskStorageConfig {
    DiskStorageConfig { data_dir: root.to_string() }
}

fn file_name(path: &str) -> String {
    path.rsplit('/').next().unwrap().to_string()
}

fn node(b: u8) -> NodeId {
    NodeId { bytes: [b; 32] }
}

fn anchor(b: u8) -> AnchorId {
    AnchorId { bytes: [b; 32] }
}

#[test]
fn join_inserts_one_separator() {
    assert_eq!(join_path("/data", "schemata"), "/data/schemata");
    assert_eq!(join_path("/data/", "schemata"), "/data/schemata");
    assert_eq!(join_path("", "schemata"), "schemata");
}

#[test]
fn kind_directories() {
    let c = config("/r");
    assert_eq!(c.schemata_dir(), "/r/schemata");
    assert_eq!(c.geneses_dir(), "/r/geneses");
    assert_eq!(c.transitions_dir(), "/r/transitions");
    assert_eq!(c.extensions_dir(), "/r/extensions");
    assert_eq!(c.anchors_dir(), "/r/anchors");
    assert_eq!(c.kind_dir(ArtifactKind::Anchor), "/r/anchors");
}

#[test]
fn bootstrap_on_empty_root_creates_all_directories() {
    let c = config("/r");
    let states = vec![PathState::Missing; 6];
    let (store, dirs) = DiskStorage::new(c, &states).unwrap();
    assert_eq!(
        dirs,
        vec!["/r", "/r/schemata", "/r/geneses", "/r/transitions", "/r/extensions", "/r/anchors"]
    );
    assert_eq!(store.config().data_dir, "/r");
    // an empty schemata directory lists nothing
    assert_eq!(store.schema_ids(&vec![]).unwrap().len(), 0);
}

#[test]
fn bootstrap_keeps_existing_directories() {
    let states = vec![
        PathState::Directory,
        PathState::Directory,
        PathState::Missing,
        PathState::Directory,
        PathState::Missing,
        PathState::Directory,
    ];
    let (_, dirs) = DiskStorage::new(config("/r"), &states).unwrap();
    assert_eq!(dirs, vec!["/r/geneses", "/r/extensions"]);
}

#[test]
fn bootstrap_fails_where_anchors_is_a_file() {
    let mut states = vec![PathState::Directory; 6];
    states[5] = PathState::NotDirectory;
    assert_eq!(DiskStorage::new(config("/r"), &states).err(), Some(DiskStorageError::Config));
}

#[test]
fn schema_path_is_bech32_with_extension() {
    let c = config("/r");
    let id = SchemaId { bytes: [7u8; 32] };
    let path = c.schema_filename(&id);
    assert!(path.starts_with("/r/schemata/rgbsh1"));
    assert!(path.ends_with(".rgb"));
    let again = c.schema_filename(&SchemaId { bytes: [8u8; 32] });
    assert_ne!(path, again);
}

#[test]
fn genesis_path_is_bech32_with_extension() {
    let c = config("/r");
    let path = c.genesis_filename(&ContractId { bytes: [3u8; 32] });
    assert!(path.starts_with("/r/geneses/rgb1"));
    assert!(path.ends_with(".rgb"));
}

#[test]
fn node_and_anchor_paths_are_hex() {
    let c = config("/r");
    let t = c.transition_filename(&node(0xab));
    assert_eq!(t, format!("/r/transitions/{}.rgb", "ab".repeat(32)));
    let e = c.extension_filename(&node(0x01));
    assert_eq!(e, format!("/r/extensions/{}.rgb", "01".repeat(32)));
    let a = c.anchor_filename(&anchor(0x5c));
    assert_eq!(a, format!("/r/anchors/{}.rgb", "5c".repeat(32)));
}

#[test]
fn listing_round_trips_schema_ids() {
    let c = config("/r");
    let (store, _) = DiskStorage::new(c.clone(), &vec![PathState::Directory; 6]).unwrap();
    let a = SchemaId { bytes: [1u8; 32] };
    let b = SchemaId { bytes: [2u8; 32] };
    let entries = vec![file_name(&c.schema_filename(&a)), file_name(&c.schema_filename(&b))];
    let ids = store.schema_ids(&entries).unwrap();
    assert_eq!(ids.len(), 2);
    assert_eq!(ids[0].bytes, a.bytes);
    assert_eq!(ids[1].bytes, b.bytes);
}

#[test]
fn listing_round_trips_contract_ids() {
    let c = config("/r");
    let (store, _) = DiskStorage::new(c.clone(), &vec![PathState::Directory; 6]).unwrap();
    let a = ContractId { bytes: [9u8; 32] };
    let entries = vec![file_name(&c.genesis_filename(&a))];
    let ids = store.contract_ids(&entries).unwrap();
    assert_eq!(ids.len(), 1);
    assert_eq!(ids[0].bytes, a.bytes);
}

#[test]
fn listing_skips_other_extensions_and_rejects_bad_stems() {
    let c = config("/r");
    let (store, _) = DiskStorage::new(c.clone(), &vec![PathState::Directory; 6]).unwrap();
    let id = SchemaId { bytes: [4u8; 32] };
    let name = file_name(&c.schema_filename(&id));
    let renamed = format!("{}.bak", name);
    assert_eq!(store.schema_ids(&vec![renamed.clone()]).unwrap().len(), 0);
    assert_eq!(c.schema_names(&vec![renamed, name.clone()]), vec![name]);
    let garbage = vec!["garbage.rgb".to_string()];
    assert_eq!(store.schema_ids(&garbage).err(), Some(DiskStorageError::Corrupt));
    assert_eq!(c.genesis_names(&vec!["x.rgbx".to_string(), "rgb".to_string()]).len(), 0);
}

#[test]
fn put_new_file_writes_through_temporary() {
    let (store, _) = DiskStorage::new(config("/r"), &vec![PathState::Directory; 6]).unwrap();
    let bytes = vec![1u8, 2, 3];
    let plan = store.put_plan("/r/schemata/x.rgb", &bytes, &None, "00ff").unwrap();
    assert!(!plan.existed);
    let w = plan.write.unwrap();
    assert_eq!(w.final_path, "/r/schemata/x.rgb");
    assert_eq!(w.tmp_path, "/r/schemata/x.rgb.tmp-00ff");
}

#[test]
fn put_same_bytes_again_reports_existing() {
    let (store, _) = DiskStorage::new(config("/r"), &vec![PathState::Directory; 6]).unwrap();
    let bytes = vec![1u8, 2, 3];
    let plan = store.put_plan("/r/schemata/x.rgb", &bytes, &Some(bytes.clone()), "1").unwrap();
    assert!(plan.existed);
    assert!(plan.write.is_none());
}

#[test]
fn put_over_different_bytes_is_corrupt() {
    let (store, _) = DiskStorage::new(config("/r"), &vec![PathState::Directory; 6]).unwrap();
    let r = store.put_plan("/r/schemata/x.rgb", &vec![1u8], &Some(vec![2u8]), "1");
    assert_eq!(r.err(), Some(DiskStorageError::Corrupt));
}

#[test]
fn remove_and_read() {
    let (store, _) = DiskStorage::new(config("/r"), &vec![PathState::Directory; 6]).unwrap();
    let p = store.remove_plan("/r/anchors/a.rgb", true);
    assert!(p.existed);
    assert_eq!(p.unlink, Some("/r/anchors/a.rgb".to_string()));
    let q = store.remove_plan("/r/anchors/a.rgb", false);
    assert!(!q.existed);
    assert!(q.unlink.is_none());
    assert_eq!(store.read_result(Some(vec![5u8])), Ok(vec![5u8]));
    assert_eq!(store.read_result(None), Err(DiskStorageError::NotFound));
}

#[test]
fn index_covers_all_leaves() {
    let mut idx = MemoryIndex::new();
    let a = AnchorCommitments { anchor_id: anchor(0xa0), leaves: vec![node(1), node(2), node(3)] };
    assert_eq!(idx.index_anchor(&a), Ok(true));
    assert_eq!(idx.anchor_id_by_transition_id(node(2)).unwrap().bytes, [0xa0; 32]);
    assert_eq!(idx.anchor_id_by_transition_id(node(1)).unwrap().bytes, [0xa0; 32]);
    assert_eq!(idx.anchor_id_by_transition_id(node(9)).err(), Some(IndexError::NotFound));
    assert_eq!(idx.records().len(), 3);
    // indexing the same anchor again installs nothing new
    assert_eq!(idx.index_anchor(&a), Ok(false));
    assert_eq!(idx.records().len(), 3);
}

#[test]
fn index_rejects_second_anchor_for_a_leaf() {
    let mut idx = MemoryIndex::new();
    let a1 = AnchorCommitments { anchor_id: anchor(0xaa), leaves: vec![node(7)] };
    let a2 = AnchorCommitments { anchor_id: anchor(0xbb), leaves: vec![node(8), node(7)] };
    assert_eq!(idx.index_anchor(&a1), Ok(true));
    assert_eq!(idx.index_anchor(&a2), Err(IndexError::Conflict));
    assert_eq!(idx.anchor_id_by_transition_id(node(7)).unwrap().bytes, [0xaa; 32]);
    assert_eq!(idx.anchor_id_by_transition_id(node(8)).err(), Some(IndexError::NotFound));
    assert_eq!(idx.records().len(), 1);
}

#[test]
fn schema_record_round_trips() {
    let c = config("/r");
    let (store, _) = DiskStorage::new(c.clone(), &vec![PathState::Directory; 6]).unwrap();
    let schema = rgb::Schema::default();
    let (id, path, bytes) = store.schema_record(&schema).unwrap();
    assert_eq!(path, c.schema_filename(&id));
    assert!(!bytes.is_empty());
    let back = store.schema(&Some(bytes.clone())).unwrap();
    let (id2, path2, bytes2) = store.schema_record(&back).unwrap();
    assert_eq!(id2.bytes, id.bytes);
    assert_eq!(path2, path);
    assert_eq!(bytes2, bytes);
}

#[test]
fn transition_record_round_trips() {
    let c = config("/r");
    let (store, _) = DiskStorage::new(c.clone(), &vec![PathState::Directory; 6]).unwrap();
    let t = rgb::Transition::default();
    let (id, path, bytes) = store.transition_record(&t).unwrap();
    assert_eq!(path, c.transition_filename(&id));
    let back = store.transition(&Some(bytes)).unwrap();
    assert!(back == t);
    assert_eq!(store.transition_record(&back).unwrap().0.bytes, id.bytes);
}

#[test]
fn extension_record_round_trips() {
    let c = config("/r");
    let (store, _) = DiskStorage::new(c.clone(), &vec![PathState::Directory; 6]).unwrap();
    let x = rgb::Extension::default();
    let (id, path, bytes) = store.extension_record(&x).unwrap();
    assert_eq!(path, c.extension_filename(&id));
    let back = store.extension(&Some(bytes)).unwrap();
    assert!(back == x);
}

#[test]
fn reading_artifacts_reports_missing_and_corrupt_files() {
    let (store, _) = DiskStorage::new(config("/r"), &vec![PathState::Directory; 6]).unwrap();
    assert_eq!(store.schema(&None).err().map(|e| e), Some(DiskStorageError::NotFound));
    assert_eq!(store.genesis(&None).err(), Some(DiskStorageError::NotFound));
    assert_eq!(store.transition(&Some(vec![0xff])).err(), Some(DiskStorageError::Corrupt));
    assert_eq!(store.extension(&Some(vec![])).err(), Some(DiskStorageError::Corrupt));
    assert_eq!(store.schema(&Some(vec![1, 2])).err().is_some(), true);
}

#[test]
fn index_survives_through_records() {
    let mut idx = MemoryIndex::new();
    let a = AnchorCommitments { anchor_id: anchor(0x11), leaves: vec![node(1), node(2)] };
    let b = AnchorCommitments { anchor_id: anchor(0x22), leaves: vec![node(3)] };
    idx.index_anchor(&a).unwrap();
    idx.index_anchor(&b).unwrap();
    let bytes = encode_records(&idx.records());
    assert_eq!(bytes.len(), 3 * RECORD_LEN);
    assert_eq!(&bytes[0..32], &[1u8; 32]);
    assert_eq!(&bytes[32..64], &[0x11u8; 32]);
    let records = decode_records(&bytes).unwrap();
    let back = MemoryIndex::rebuild(&records_as_anchors(&records)).unwrap();
    assert_eq!(back.anchor_id_by_transition_id(node(1)).unwrap().bytes, [0x11; 32]);
    assert_eq!(back.anchor_id_by_transition_id(node(3)).unwrap().bytes, [0x22; 32]);
    assert_eq!(back.records().len(), 3);
    assert!(decode_records(&vec![0u8; 65]).is_none());
    assert_eq!(decode_records(&vec![]).unwrap().len(), 0);
}

#[test]
fn rebuild_reports_conflicting_anchors() {
    let a1 = AnchorCommitments { anchor_id: anchor(1), leaves: vec![node(5)] };
    let a2 = AnchorCommitments { anchor_id: anchor(2), leaves: vec![node(5)] };
    assert_eq!(MemoryIndex::rebuild(&vec![a1.clone(), a2]).err(), Some(IndexError::Conflict));
    let same = MemoryIndex::rebuild(&vec![a1.clone(), a1]).unwrap();
    assert_eq!(same.records().len(), 1);
}

#[test]
fn record_ids_match_the_artifacts_own() {
    let (store, _) = DiskStorage::new(config("/r"), &vec![PathState::Directory; 6]).unwrap();
    let schema = rgb::Schema::default();
    let (sid, _, _) = store.schema_record(&schema).unwrap();
    assert_eq!(sid.bytes, bitcoin::hashes::Hash::into_inner(*schema.schema_id()));
    let t = rgb::Transition::default();
    let (tid, _, _) = store.transition_record(&t).unwrap();
    assert_eq!(tid.bytes, bitcoin::hashes::Hash::into_inner(*rgb::Node::node_id(&t)));
    let g = rgb::Genesis::default();
    let (gid, gpath, _) = store.genesis_record(&g).unwrap();
    assert_eq!(gid.bytes, bitcoin::hashes::Hash::into_inner(*rgb::Node::node_id(&g)));
    assert!(gpath.starts_with("/r/geneses/rgb1"));
}

#[test]
fn node_hex_is_reversed_bytes() {
    let c = config("/r");
    let mut bytes = [0u8; 32];
    for (i, b) in bytes.iter_mut().enumerate() {
        *b = i as u8;
    }
    let path = c.transition_filename(&NodeId { bytes });
    assert!(path.starts_with("/r/transitions/1f1e1d1c"));
    assert!(path.ends_with("03020100.rgb"));
}

#[test]
fn hex_listings_round_trip_and_reject_bad_names() {
    let c = config("/r");
    let (store, _) = DiskStorage::new(c.clone(), &vec![PathState::Directory; 6]).unwrap();
    let t = NodeId { bytes: [0x3c; 32] };
    let names = vec![file_name(&c.transition_filename(&t)), "notes.txt".to_string()];
    let ids = store.transition_ids(&names).unwrap();
    assert_eq!(ids.len(), 1);
    assert_eq!(ids[0].bytes, t.bytes);
    let upper = vec![format!("{}.rgb", "AB".repeat(32))];
    assert_eq!(store.extension_ids(&upper).unwrap()[0].bytes, [0xab; 32]);
    let a = anchor(0x7e);
    let listed = store.anchor_ids(&vec![file_name(&c.anchor_filename(&a))]).unwrap();
    assert_eq!(listed[0].bytes, a.bytes);
    assert_eq!(store.anchor_ids(&vec!["garbage.rgb".to_string()]).err(), Some(DiskStorageError::Corrupt));
    let short = vec![format!("{}.rgb", "ab".repeat(31))];
    assert_eq!(store.transition_ids(&short).err(), Some(DiskStorageError::Corrupt));
    let bad_digit = vec![format!("{}g.rgb", "a".repeat(63))];
    assert_eq!(store.extension_ids(&bad_digit).err(), Some(DiskStorageError::Corrupt));
}

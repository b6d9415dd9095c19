use hnsw_rs::hnsw::Hnsw;
use hnsw_rs::prelude::DistCosine;
use vector_index::codec::{decode_vector, encode_vector, Vector};
use vector_index::protocol::{decode_listing, plan_write, query_result, read_result, ServiceError, WriteAction};
use vector_index::registry::IndexRegistry;

const DIM: usize = 4;

fn vector_of(xs: &[f32]) -> Vector {
    Vector { vector: xs.iter().map(|x| x.to_bits()).collect() }
}

fn floats_of(v: &Vector) -> Vec<f32> {
    v.vector.iter().map(|b| f32::from_bits(*b)).collect()
}

/// A store of rows for one namespace, kept in memory for the scenarios.
struct Rows {
    rows: Vec<(u64, Vec<u8>)>,
}

impl Rows {
    fn count(&self, id: u64) -> i64 {
        self.rows.iter().filter(|(i, _)| *i == id).count() as i64
    }

    fn get(&self, id: u64) -> Option<Vec<u8>> {
        self.rows.iter().find(|(i, _)| *i == id).map(|(_, b)| b.clone())
    }

    fn apply(&mut self, id: u64, action: &WriteAction) {
        match action {
            WriteAction::Insert { bytes } => self.rows.push((id, bytes.clone())),
            WriteAction::Update { bytes } => {
                for row in self.rows.iter_mut() {
                    if row.0 == id {
                        row.1 = bytes.clone();
                    }
                }
            }
        }
    }

    fn delete(&mut self, id: u64) {
        self.rows.retain(|(i, _)| *i != id);
    }
}

fn build(rows: &Rows) -> Hnsw<'static, f32, DistCosine> {
    let pairs = decode_listing(&rows.rows, DIM).expect("listing decodes");
    let hnsw = Hnsw::new(24, 10_000, 16, 200, DistCosine {});
    for (id, v) in pairs.iter() {
        let data = floats_of(v);
        hnsw.insert((&data, *id as usize));
    }
    hnsw
}

fn search(
    registry: &IndexRegistry<Hnsw<'static, f32, DistCosine>>,
    ns: &String,
    query: &[f32],
    k: usize,
) -> Vec<u64> {
    let found: Option<Vec<usize>> = registry
        .lookup(ns)
        .map(|h| h.search(query, k, 50).into_iter().map(|n| n.d_id).collect());
    query_result(found.as_ref(), k)
}

fn rebuild(registry: &mut IndexRegistry<Hnsw<'static, f32, DistCosine>>, ns: &String, rows: &Rows) {
    let g = registry.begin_rebuild().expect("generation");
    let hnsw = build(rows);
    assert!(registry.install(ns.clone(), g, hnsw));
}

fn write(
    registry: &mut IndexRegistry<Hnsw<'static, f32, DistCosine>>,
    ns: &String,
    rows: &mut Rows,
    id: u64,
    v: &Vector,
) -> Result<(), ServiceError> {
    let action = plan_write(DIM, v, rows.count(id))?;
    rows.apply(id, &action);
    if action.triggers_rebuild() {
        rebuild(registry, ns, rows);
    }
    Ok(())
}

#[test]
fn encoding_is_length_then_little_endian_words() {
    let bytes = encode_vector(&vector_of(&[1.0, -2.0]));
    assert_eq!(
        bytes,
        vec![2, 0, 0, 0, 0, 0, 0, 0, 0x00, 0x00, 0x80, 0x3f, 0x00, 0x00, 0x00, 0xc0]
    );
    assert_eq!(encode_vector(&Vector { vector: vec![] }), vec![0u8; 8]);
}

#[test]
fn write_then_read_is_bit_exact() {
    let v = vector_of(&[0.1, -0.0, f32::MIN_POSITIVE, 3.0e38]);
    let bytes = encode_vector(&v);
    let back = decode_vector(&bytes).expect("decodes");
    assert_eq!(back.vector, v.vector);
    let read = read_result(Some(bytes.as_slice())).expect("read");
    assert_eq!(read.expect("present").vector, v.vector);
}

#[test]
fn decode_accepts_trailing_bytes_and_rejects_short_input() {
    let mut bytes = encode_vector(&Vector { vector: vec![7, 9] });
    bytes.push(0xff);
    assert_eq!(decode_vector(&bytes).expect("decodes").vector, vec![7, 9]);
    assert!(decode_vector(&[1, 0, 0, 0, 0, 0, 0, 0, 1, 2]).is_none());
    assert!(decode_vector(&[1, 2, 3]).is_none());
}

#[test]
fn read_of_absent_and_corrupt_rows() {
    assert_eq!(read_result(None).map(|r| r.is_none()), Ok(true));
    assert_eq!(read_result(Some(&[5u8, 0][..])).err(), Some(ServiceError::StoreUnavailable));
}

#[test]
fn wrong_dimension_is_refused_and_store_unchanged() {
    let mut rows = Rows { rows: vec![] };
    let mut registry = IndexRegistry::new();
    let ns = String::from("ns");
    let short = vector_of(&[1.0, 2.0, 3.0]);
    assert_eq!(write(&mut registry, &ns, &mut rows, 1, &short), Err(ServiceError::DimensionMismatch));
    assert!(rows.get(1).is_none());
    let good = vector_of(&[1.0, 2.0, 3.0, 4.0]);
    write(&mut registry, &ns, &mut rows, 1, &good).unwrap();
    let long = vector_of(&[1.0, 2.0, 3.0, 4.0, 5.0]);
    assert_eq!(plan_write(DIM, &long, 1).err(), Some(ServiceError::DimensionMismatch));
    assert_eq!(rows.get(1), Some(encode_vector(&good)));
}

#[test]
fn new_id_inserts_without_rebuild_and_known_id_updates_with_rebuild() {
    let v = vector_of(&[1.0, 0.0, 0.0, 0.0]);
    match plan_write(DIM, &v, 0).unwrap() {
        WriteAction::Insert { bytes } => assert_eq!(bytes, encode_vector(&v)),
        WriteAction::Update { .. } => panic!("a new id is inserted"),
    }
    let update = plan_write(DIM, &v, 1).unwrap();
    assert!(update.triggers_rebuild());
    assert!(!plan_write(DIM, &v, 0).unwrap().triggers_rebuild());
}

#[test]
fn update_then_query_finds_the_new_value() {
    let mut rows = Rows { rows: vec![] };
    let mut registry = IndexRegistry::new();
    let ns = String::from("docs");
    let v1 = vector_of(&[1.0, 0.0, 0.0, 0.0]);
    let v2 = vector_of(&[0.0, 0.0, 1.0, 0.0]);
    write(&mut registry, &ns, &mut rows, 2, &vector_of(&[0.0, 1.0, 0.0, 0.0])).unwrap();
    write(&mut registry, &ns, &mut rows, 1, &v1).unwrap();
    assert!(!registry.contains(&ns));
    write(&mut registry, &ns, &mut rows, 1, &v2).unwrap();
    assert_eq!(search(&registry, &ns, &floats_of(&v2), 1), vec![1]);
    let read = read_result(rows.get(1).as_deref()).unwrap().unwrap();
    assert_eq!(read.vector, v2.vector);
}

#[test]
fn delete_is_immediate_for_read_but_stale_for_query() {
    let mut rows = Rows { rows: vec![] };
    let mut registry = IndexRegistry::new();
    let ns = String::from("ns");
    let v = vector_of(&[1.0, 1.0, 0.0, 0.0]);
    write(&mut registry, &ns, &mut rows, 1, &v).unwrap();
    write(&mut registry, &ns, &mut rows, 1, &v).unwrap();
    rows.delete(1);
    assert_eq!(read_result(rows.get(1).as_deref()).unwrap().map(|v| v.vector), None);
    assert_eq!(search(&registry, &ns, &floats_of(&v), 3), vec![1]);
    rebuild(&mut registry, &ns, &rows);
    assert_eq!(search(&registry, &ns, &floats_of(&v), 3), Vec::<u64>::new());
}

#[test]
fn fewer_than_k_returns_all_nearest_first() {
    let mut rows = Rows { rows: vec![] };
    let mut registry = IndexRegistry::new();
    let ns = String::from("ns");
    write(&mut registry, &ns, &mut rows, 10, &vector_of(&[1.0, 0.0, 0.0, 0.0])).unwrap();
    write(&mut registry, &ns, &mut rows, 20, &vector_of(&[1.0, 1.0, 0.0, 0.0])).unwrap();
    rebuild(&mut registry, &ns, &rows);
    assert_eq!(search(&registry, &ns, &[1.0, 0.1, 0.0, 0.0], 5), vec![10, 20]);
    assert_eq!(search(&registry, &ns, &[0.1, 1.0, 0.0, 0.0], 5), vec![20, 10]);
}

#[test]
fn query_result_truncates_to_k() {
    let found = vec![4usize, 8, 15, 16];
    assert_eq!(query_result(Some(&found), 2), vec![4, 8]);
    assert_eq!(query_result(Some(&found), 9), vec![4, 8, 15, 16]);
    assert_eq!(query_result(Some(&found), 0), Vec::<u64>::new());
    assert_eq!(query_result(None, 3), Vec::<u64>::new());
}

#[test]
fn query_on_unwritten_namespace_is_empty() {
    let registry: IndexRegistry<Hnsw<'static, f32, DistCosine>> = IndexRegistry::new();
    let ns = String::from("never");
    assert!(!registry.contains(&ns));
    assert_eq!(search(&registry, &ns, &[1.0, 0.0, 0.0, 0.0], 10), Vec::<u64>::new());
}

#[test]
fn listing_with_bad_row_fails_rebuild() {
    let good = encode_vector(&vector_of(&[1.0, 2.0, 3.0, 4.0]));
    let wrong_len = encode_vector(&vector_of(&[1.0]));
    let ok = decode_listing(&vec![(3, good.clone()), (5, good.clone())], DIM).unwrap();
    assert_eq!(ok.iter().map(|p| p.0).collect::<Vec<u64>>(), vec![3, 5]);
    assert_eq!(ok[1].1.vector, vector_of(&[1.0, 2.0, 3.0, 4.0]).vector);
    assert_eq!(
        decode_listing(&vec![(3, good.clone()), (5, wrong_len)], DIM).err(),
        Some(ServiceError::RebuildFailed)
    );
    assert_eq!(
        decode_listing(&vec![(3, vec![1, 2]), (5, good)], DIM).err(),
        Some(ServiceError::RebuildFailed)
    );
    assert_eq!(decode_listing(&vec![], DIM).map(|p| p.len()), Ok(0));
}

#[test]
fn stale_rebuild_does_not_replace_newer_index() {
    let mut registry: IndexRegistry<&str> = IndexRegistry::new();
    let ns = String::from("ns");
    let other = String::from("other");
    let g0 = registry.begin_rebuild().unwrap();
    let g1 = registry.begin_rebuild().unwrap();
    assert_eq!((g0, g1), (0, 1));
    assert!(registry.install(ns.clone(), g1, "later"));
    assert!(!registry.install(ns.clone(), g0, "earlier"));
    assert_eq!(registry.lookup(&ns), Some(&"later"));
    assert_eq!(registry.generation(&ns), Some(1));
    assert_eq!(registry.lookup(&other), None);
    assert!(registry.install(other.clone(), g0, "first"));
    assert_eq!(registry.lookup(&ns), Some(&"later"));
    let g2 = registry.begin_rebuild().unwrap();
    assert!(registry.install(ns.clone(), g2, "newest"));
    assert_eq!(registry.lookup(&ns), Some(&"newest"));
    assert_eq!(registry.lookup(&other), Some(&"first"));
}

#[test]
fn racing_rebuilds_settle_on_latest_in_either_order() {
    let ns = String::from("ns");
    let mut a: IndexRegistry<u32> = IndexRegistry::new();
    let mut b: IndexRegistry<u32> = IndexRegistry::new();
    assert!(a.install(ns.clone(), 3, 30));
    assert!(a.install(ns.clone(), 7, 70));
    assert!(b.install(ns.clone(), 7, 70));
    assert!(!b.install(ns.clone(), 3, 30));
    assert_eq!(a.lookup(&ns), Some(&70));
    assert_eq!(b.lookup(&ns), Some(&70));
}

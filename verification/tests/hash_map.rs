use std::collections::hash_map::HashMap;
use std::hash::{BuildHasher, Hash, Hasher};
use std::str::FromStr;

use streamkit::array::{
    ArrayImpl, BoolArray, DataChunk, DecimalArray, F32Array, F64Array, I16Array, I32Array,
    I64Array, IntervalArray, Utf8Array,
};
use streamkit::decimal::Decimal;
use streamkit::error::Error;
use streamkit::hash_map::{
    build_with_hash_codes, feed, serialize_array_to_hash_key, FixedSizeKeySerializer, HashKey,
    HashKeySerialize, HashKeySerializer, Key128, Key16, Key256, Key32, Key64, KeySerialized,
    PrecomputedBuildHasher, PrecomputedHasher, SerializedKeySerializer,
};
use streamkit::types::{Float32, Float64, IntervalUnit, ScalarImpl};

/// A small generator of pseudo-random numbers.
struct Generator {
    state: u64,
}

impl Generator {
    fn new(seed: u64) -> Generator {
        Generator { state: seed }
    }

    fn next(&mut self) -> u64 {
        self.state = self.state.wrapping_add(0x9E37_79B9_7F4A_7C15);
        let mut z = self.state;
        z = (z ^ (z >> 30)).wrapping_mul(0xBF58_476D_1CE4_E5B9);
        z = (z ^ (z >> 27)).wrapping_mul(0x94D0_49BB_1331_11EB);
        z ^ (z >> 31)
    }

    /// A number that is null at times, and often one of a few.
    fn entry(&mut self) -> Option<u64> {
        let kind = self.next() % 4;
        if kind == 0 {
            None
        } else if kind == 1 {
            Some(self.next())
        } else {
            Some(self.next() % 5)
        }
    }
}

fn entries<T, F: Fn(u64) -> T>(capacity: usize, seed: u64, value: F) -> Vec<Option<T>> {
    let mut generator = Generator::new(seed);
    let mut r = Vec::new();
    for _ in 0..capacity {
        r.push(generator.entry().map(|x| value(x)));
    }
    r
}

fn generate_random_data_chunk() -> DataChunk {
    let capacity = 128;
    let seed = 10244021u64;
    let columns = vec![
        ArrayImpl::Bool(BoolArray::new(entries(capacity, seed, |x| x % 2 == 1))),
        ArrayImpl::Int16(I16Array::new(entries(capacity, seed, |x| x as i16))),
        ArrayImpl::Int32(I32Array::new(entries(capacity, seed, |x| x as i32))),
        ArrayImpl::Int64(I64Array::new(entries(capacity, seed, |x| x as i64))),
        ArrayImpl::Float32(F32Array::new(entries(capacity, seed, |x| Float32 {
            bits: (x as f32 / 7.0).to_bits(),
        }))),
        ArrayImpl::Float64(F64Array::new(entries(capacity, seed, |x| Float64 {
            bits: (x as f64 / 7.0).to_bits(),
        }))),
        ArrayImpl::Decimal(DecimalArray::new(entries(capacity, seed, |x| {
            // The same number with more and with fewer digits.
            if x % 2 == 0 {
                Decimal::new(x as i128 * 1000, 5).unwrap()
            } else {
                Decimal::new(x as i128, 2).unwrap()
            }
        }))),
        ArrayImpl::Utf8(Utf8Array::new(entries(capacity, seed, |x| format!("{:x}", x)))),
    ];
    DataChunk::new(columns, capacity).expect("Failed to create data chunk")
}

fn do_test<K: HashKey, F>(column_indexes: Vec<usize>, data_gen: F)
where
    F: FnOnce() -> DataChunk,
{
    let data = data_gen();

    let mut actual_row_id_mapping = HashMap::<usize, Vec<usize>>::with_capacity(100);
    {
        let mut fast_hash_map =
            HashMap::<K, Vec<usize>, PrecomputedBuildHasher>::with_capacity_and_hasher(
                100,
                PrecomputedBuildHasher,
            );
        let keys = K::build(column_indexes.as_slice(), &data).expect("Failed to build hash keys");

        for (row_id, key) in keys.into_iter().enumerate() {
            let row_ids = fast_hash_map.entry(key).or_default();
            row_ids.push(row_id);
        }

        for row_ids in fast_hash_map.values() {
            for row_id in row_ids {
                actual_row_id_mapping.insert(*row_id, row_ids.clone());
            }
        }
    }

    let mut expected_row_id_mapping = HashMap::<usize, Vec<usize>>::with_capacity(100);
    {
        let mut groups: Vec<(Vec<Option<ScalarImpl>>, Vec<usize>)> = Vec::new();
        for row_idx in 0..data.capacity() {
            let row = column_indexes
                .iter()
                .map(|col_idx| {
                    data.column_at(*col_idx)
                        .unwrap_or_else(|_| panic!("Column not found: {}", *col_idx))
                })
                .map(|col| col.scalar_value_at(row_idx))
                .collect::<Vec<Option<ScalarImpl>>>();

            match groups.iter().position(|(other, _)| *other == row) {
                Some(i) => groups[i].1.push(row_idx),
                None => groups.push((row, vec![row_idx])),
            }
        }

        for (_, row_ids) in &groups {
            for row_id in row_ids {
                expected_row_id_mapping.insert(*row_id, row_ids.clone());
            }
        }
    }

    assert_eq!(expected_row_id_mapping, actual_row_id_mapping);
}

#[test]
fn test_two_bytes_hash_key() {
    do_test::<Key16, _>(vec![1], generate_random_data_chunk);
}

#[test]
fn test_four_bytes_hash_key() {
    do_test::<Key32, _>(vec![0, 1], generate_random_data_chunk);
    do_test::<Key32, _>(vec![2], generate_random_data_chunk);
    do_test::<Key32, _>(vec![4], generate_random_data_chunk);
}

#[test]
fn test_eight_bytes_hash_key() {
    do_test::<Key64, _>(vec![1, 2], generate_random_data_chunk);
    do_test::<Key64, _>(vec![0, 1, 2], generate_random_data_chunk);
    do_test::<Key64, _>(vec![3], generate_random_data_chunk);
    do_test::<Key64, _>(vec![5], generate_random_data_chunk);
}

#[test]
fn test_128_bits_hash_key() {
    do_test::<Key128, _>(vec![3, 5], generate_random_data_chunk);
    do_test::<Key128, _>(vec![6], generate_random_data_chunk);
}

#[test]
fn test_256_bits_hash_key() {
    do_test::<Key256, _>(vec![3, 5, 6], generate_random_data_chunk);
    do_test::<Key256, _>(vec![3, 6], generate_random_data_chunk);
}

#[test]
fn test_var_length_hash_key() {
    do_test::<KeySerialized, _>(vec![0, 7], generate_random_data_chunk);
}

fn parse_decimal(text: &str) -> Decimal {
    let d = rust_decimal::Decimal::from_str(text).unwrap();
    Decimal::new(d.mantissa(), d.scale()).unwrap()
}

fn generate_decimal_test_data() -> DataChunk {
    let columns = vec![ArrayImpl::Decimal(DecimalArray::new(vec![
        Some(parse_decimal("1.2")),
        None,
        Some(parse_decimal("1.200")),
        Some(parse_decimal("0.00")),
        Some(parse_decimal("0.0")),
    ]))];

    DataChunk::new(columns, 5).expect("Failed to create data chunk")
}

#[test]
fn test_decimal_hash_key_serialization() {
    do_test::<Key128, _>(vec![0], generate_decimal_test_data);
}

#[test]
fn decimal_keys_compare_by_number() {
    let keys = Key128::build(&[0], &generate_decimal_test_data()).unwrap();
    assert!(keys[0] == keys[2]);
    assert!(keys[3] == keys[4]);
    assert!(keys[0] != keys[3]);
    // Null is not zero, though both have the bytes of zero.
    assert!(keys[1] != keys[3]);
    let serialized = KeySerialized::build(&[0], &generate_decimal_test_data()).unwrap();
    assert!(serialized[0] == serialized[2]);
    assert!(serialized[3] == serialized[4]);
    assert!(serialized[1] != serialized[3]);
}

#[test]
fn serialized_key_holds_any_column() {
    do_test::<KeySerialized, _>(vec![0, 1, 2, 3, 4, 5, 6, 7, 0, 1], generate_random_data_chunk);
    do_test::<KeySerialized, _>(vec![], generate_random_data_chunk);
}

#[test]
fn fixed_size_key_may_be_partly_filled() {
    do_test::<Key256, _>(vec![], generate_random_data_chunk);
    do_test::<Key256, _>(vec![0, 1, 2, 3], generate_random_data_chunk);
    // Eight columns are as many as there are bits for nulls.
    do_test::<Key256, _>(vec![0, 0, 0, 0, 0, 0, 0, 0], generate_random_data_chunk);
    do_test::<Key256, _>(vec![0, 1, 2, 0, 1, 2, 0, 1], generate_random_data_chunk);
}

#[test]
fn scalars_serialize_to_bytes_in_machine_order() {
    assert_eq!(HashKeySerialize::serialize(true), [1u8]);
    assert_eq!(HashKeySerialize::serialize(false), [0u8]);
    for v in [-2i16, 0, 1, 0x0102, i16::MIN, i16::MAX] {
        assert_eq!(HashKeySerialize::serialize(v), v.to_ne_bytes());
    }
    for v in [-2i32, 0, 1, 0x0102_0304, i32::MIN, i32::MAX] {
        assert_eq!(HashKeySerialize::serialize(v), v.to_ne_bytes());
    }
    for v in [-2i64, 0, 1, 0x0102_0304_0506_0708, i64::MIN, i64::MAX] {
        assert_eq!(HashKeySerialize::serialize(v), v.to_ne_bytes());
    }
    for v in [1.0f32, -0.5, 3.25e10] {
        assert_eq!(HashKeySerialize::serialize(Float32 { bits: v.to_bits() }), v.to_ne_bytes());
    }
    for v in [1.0f64, -0.5, 3.25e100] {
        assert_eq!(HashKeySerialize::serialize(Float64 { bits: v.to_bits() }), v.to_ne_bytes());
    }
    let mut interval = [0u8; 16];
    interval[0..4].copy_from_slice(&1i32.to_ne_bytes());
    interval[4..8].copy_from_slice(&(-1i32).to_ne_bytes());
    interval[8..16].copy_from_slice(&258i64.to_ne_bytes());
    assert_eq!(
        HashKeySerialize::serialize(IntervalUnit { months: 1, days: -1, ms: 258 }),
        interval
    );
}

#[test]
fn decimals_serialize_in_normal_form() {
    // The scale is in the third byte, the sign in the fourth.
    let twelve_tenths = [0, 0, 1, 0, 12, 0, 0, 0, 0, 0, 0, 0, 0, 0, 0, 0];
    assert_eq!(HashKeySerialize::serialize(parse_decimal("1.2")), twelve_tenths);
    assert_eq!(HashKeySerialize::serialize(parse_decimal("1.200")), twelve_tenths);
    assert_eq!(HashKeySerialize::serialize(parse_decimal("0.00")), [0u8; 16]);
    assert_eq!(
        HashKeySerialize::serialize(parse_decimal("-100")),
        [0, 0, 0, 0x80, 100, 0, 0, 0, 0, 0, 0, 0, 0, 0, 0, 0]
    );
    // As it stands, with its zeros.
    assert_eq!(
        Decimal::serialize(&parse_decimal("1.200")),
        [0, 0, 3, 0, 0xb0, 4, 0, 0, 0, 0, 0, 0, 0, 0, 0, 0]
    );
}

#[test]
fn columns_must_exist() {
    let data = generate_decimal_test_data();
    assert_eq!(data.get_hash_values(&[0, 3, 2]).err(), Some(Error::ColumnNotFound { index: 3 }));
    assert_eq!(Key128::build(&[0, 1], &data).err(), Some(Error::ColumnNotFound { index: 1 }));
    assert_eq!(
        KeySerialized::build(&[7], &data).err(),
        Some(Error::ColumnNotFound { index: 7 })
    );
    assert_eq!(data.column_at(1).err(), Some(Error::ColumnNotFound { index: 1 }));
}

#[test]
fn keys_have_a_limited_size() {
    let data = generate_random_data_chunk();
    assert_eq!(Key16::build(&[2], &data).err(), Some(Error::KeyTooLong));
    assert_eq!(Key32::build(&[1, 1, 0], &data).err(), Some(Error::KeyTooLong));
    assert!(Key32::build(&[1, 1], &data).is_ok());
}

#[test]
fn keys_have_a_limited_number_of_columns() {
    let data = generate_random_data_chunk();
    assert_eq!(Key256::build(&[0; 9], &data).err(), Some(Error::TooManyColumns));
    assert!(Key256::build(&[0; 8], &data).is_ok());
    // A column without a fixed size is only ever refused for that reason.
    assert_eq!(
        Key256::build(&[0, 0, 0, 0, 0, 0, 0, 0, 7], &data).err(),
        Some(Error::TooManyColumns)
    );
}

#[test]
fn a_chunk_without_rows_has_no_keys() {
    let data = DataChunk::new(vec![ArrayImpl::Int64(I64Array::new(vec![]))], 0).unwrap();
    assert_eq!(Key16::build(&[0], &data).unwrap().len(), 0);
    assert_eq!(KeySerialized::build(&[0], &data).unwrap().len(), 0);
}

#[test]
fn serializer_counts_down() {
    let mut serializer = FixedSizeKeySerializer::<4>::from_hash_code(7);
    assert_eq!(serializer.left_size(), 4);
    assert_eq!(serializer.append(Some(5i16)), Ok(()));
    assert_eq!(serializer.left_size(), 2);
    assert_eq!(serializer.append::<i32>(None), Err(Error::KeyTooLong));
    assert_eq!(serializer.left_size(), 2);
    assert_eq!(serializer.append::<i16>(None), Ok(()));
    assert_eq!(serializer.left_size(), 0);
}

#[test]
fn a_column_that_does_not_fit_is_still_recorded() {
    let mut with = FixedSizeKeySerializer::<2>::from_hash_code(0);
    let mut without = FixedSizeKeySerializer::<2>::from_hash_code(0);
    assert_eq!(with.append(Some(5i32)), Err(Error::KeyTooLong));
    assert_eq!(without.append::<i32>(None), Err(Error::KeyTooLong));
    assert!(with.into_hash_key() != without.into_hash_key());
}

#[test]
fn the_hash_code_does_not_count() {
    let mut a = SerializedKeySerializer::from_hash_code(1);
    let mut b = SerializedKeySerializer::from_hash_code(2);
    assert_eq!(a.append(Some("x")), Ok(()));
    assert_eq!(b.append(Some("x")), Ok(()));
    assert!(a.into_hash_key() == b.into_hash_key());
    let mut a = FixedSizeKeySerializer::<1>::from_hash_code(1);
    let mut b = FixedSizeKeySerializer::<1>::from_hash_code(2);
    assert_eq!(a.append(Some(true)), Ok(()));
    assert_eq!(b.append(Some(true)), Ok(()));
    assert!(a.into_hash_key() == b.into_hash_key());
}

fn precomputed<T: Hash>(x: &T) -> u64 {
    let mut hasher = PrecomputedBuildHasher.build_hasher();
    x.hash(&mut hasher);
    hasher.finish()
}

#[test]
fn keys_hash_to_their_hash_code() {
    assert_eq!(PrecomputedHasher::default().finish(), 0);
    let key = FixedSizeKeySerializer::<1>::from_hash_code(0x0102_0304_0506_0708).into_hash_key();
    assert_eq!(precomputed(&key), 0x0102_0304_0506_0708);
    let key = SerializedKeySerializer::from_hash_code(99).into_hash_key();
    assert_eq!(precomputed(&key), 99);

    let data = generate_random_data_chunk();
    let codes = data.get_hash_values(&[3, 6]).unwrap();
    let keys = Key256::build(&[3, 6], &data).unwrap();
    assert_eq!(codes.len(), 128);
    for i in 0..128 {
        assert_eq!(precomputed(&keys[i]), codes[i]);
        assert_eq!(keys[i].precomputed_hash(&PrecomputedBuildHasher), codes[i]);
    }
}

#[test]
fn keys_of_two_chunks_compare() {
    let left = DataChunk::new(
        vec![
            ArrayImpl::Int16(I16Array::new(vec![Some(7), None])),
            ArrayImpl::Bool(BoolArray::new(vec![Some(true), Some(true)])),
        ],
        2,
    )
    .unwrap();
    let right = DataChunk::new(
        vec![
            ArrayImpl::Bool(BoolArray::new(vec![Some(true), Some(false), Some(true)])),
            ArrayImpl::Int16(I16Array::new(vec![None, Some(7), Some(7)])),
        ],
        3,
    )
    .unwrap();
    let a = Key32::build(&[0, 1], &left).unwrap();
    let b = Key32::build(&[1, 0], &right).unwrap();
    assert!(a[0] == b[2]);
    assert!(a[1] == b[0]);
    assert!(a[0] != b[1]);
    assert_eq!(a[0].get_hash_code(), b[2].get_hash_code());
    let a = KeySerialized::build(&[0, 1], &left).unwrap();
    let b = KeySerialized::build(&[1, 0], &right).unwrap();
    assert!(a[0] == b[2]);
    assert!(a[1] == b[0]);
    assert!(a[0] != b[1]);
    assert_eq!(a[1].get_hash_code(), b[0].get_hash_code());
}

/// A hasher that notes what it is given.
#[derive(Default)]
struct Noting {
    integers: Vec<u64>,
    others: usize,
}

impl Hasher for Noting {
    fn finish(&self) -> u64 {
        0
    }

    fn write(&mut self, _bytes: &[u8]) {
        self.others += 1;
    }

    fn write_u64(&mut self, i: u64) {
        self.integers.push(i);
    }
}

#[test]
fn a_hasher_is_given_the_hash_code_alone() {
    let mut serializer = FixedSizeKeySerializer::<4>::from_hash_code(41);
    assert_eq!(serializer.append(Some(5i32)), Ok(()));
    let mut hasher = Noting::default();
    serializer.into_hash_key().hash(&mut hasher);
    assert_eq!((hasher.integers, hasher.others), (vec![41], 0));
    let mut serializer = SerializedKeySerializer::from_hash_code(42);
    assert_eq!(serializer.append(Some("x")), Ok(()));
    let mut hasher = Noting::default();
    serializer.into_hash_key().hash(&mut hasher);
    assert_eq!((hasher.integers, hasher.others), (vec![42], 0));
    // It is the same whether the hasher is taken or borrowed.
    let hasher = feed(Noting::default(), 43);
    assert_eq!((hasher.integers, hasher.others), (vec![43], 0));
}

#[test]
fn hasher_stores_the_last_hash_code() {
    let mut hasher = PrecomputedBuildHasher.build_hasher();
    assert_eq!(hasher.finish(), 0);
    hasher.write_u64(5);
    hasher.write_u64(u64::MAX);
    assert_eq!(hasher.finish(), u64::MAX);
    assert_eq!(hasher.finish(), u64::MAX);
    hasher.write_u64(1);
    assert_eq!(hasher.finish(), 1);
    assert_eq!(PrecomputedBuildHasher.finish_after(&[]), 0);
    assert_eq!(PrecomputedBuildHasher.finish_after(&[5, u64::MAX, 9]), 9);
}

#[test]
fn hasher_takes_eight_bytes() {
    let mut hasher = PrecomputedHasher::default();
    hasher.write(&77u64.to_ne_bytes());
    assert_eq!(hasher.finish(), 77);
    hasher.write(&0xff00_0000_0000_0001u64.to_ne_bytes());
    assert_eq!(hasher.finish(), 0xff00_0000_0000_0001);
}

#[test]
fn hash_codes_are_checksums() {
    let columns = vec![
        ArrayImpl::Bool(BoolArray::new(vec![Some(true), None])),
        ArrayImpl::Utf8(Utf8Array::new(vec![Some("abc".to_string()), Some("abc".to_string())])),
        ArrayImpl::Interval(IntervalArray::new(vec![None, None])),
    ];
    let data = DataChunk::new(columns, 2).unwrap();
    assert_eq!(data.get_hash_values(&[0]).unwrap()[0], 0x2fc5_1328);
    assert_eq!(data.get_hash_values(&[1, 2]).unwrap()[0], 0x7d5b_69e1);
    assert_eq!(data.get_hash_values(&[]).unwrap(), vec![0, 0]);
    assert_eq!(data.get_hash_values(&[1]).unwrap()[0], data.get_hash_values(&[1]).unwrap()[1]);
    assert_ne!(data.get_hash_values(&[0]).unwrap()[0], data.get_hash_values(&[0]).unwrap()[1]);
}

#[test]
fn keys_can_be_built_with_given_hash_codes() {
    let data = generate_decimal_test_data();
    let keys =
        build_with_hash_codes::<FixedSizeKeySerializer<16>>(vec![5, 4, 3, 2, 1], &[0], &data)
            .unwrap();
    assert_eq!(precomputed(&keys[0]), 5);
    assert_eq!(precomputed(&keys[4]), 1);
    assert!(keys[0] == keys[2]);
}

#[test]
fn arrays_are_appended_entry_by_entry() {
    let array = I16Array::new(vec![Some(1), None, Some(1)]);
    let mut serializers = Vec::new();
    for _ in 0..3 {
        serializers.push(FixedSizeKeySerializer::<4>::from_hash_code(0));
    }
    assert_eq!(serialize_array_to_hash_key(&array, &mut serializers), Ok(()));
    assert_eq!(ArrayImpl::Int16(array).serialize_to_hash_key(&mut serializers), Ok(()));
    let keys: Vec<_> = serializers.into_iter().map(|s| s.into_hash_key()).collect();
    assert!(keys[0] == keys[2]);
    assert!(keys[0] != keys[1]);
}

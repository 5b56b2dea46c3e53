use gguf_meta::document::{Document, ElementType, Header, MetadataEntry, TensorDescriptor};
use gguf_meta::error::{GGUFError, LayoutFault};
use gguf_meta::file_codec::{create_backup_bytes, decode_document, encode_document};
use gguf_meta::update::{RequestValue, ResolvedUpdate, UpdateRequest, WriteMode, apply_updates,
    update_metadata};
use gguf_meta::validator::{validate_layout, validate_structure};
use gguf_meta::value::{MetadataValue, SimpleValue, ValueTag, value_is_wf};

fn sample_document() -> Document {
    // Header: version 1, two tensors, three metadata entries.
    let metadata = vec![
        MetadataEntry {
            key: b"block_count".to_vec(),
            value: MetadataValue::Simple(SimpleValue::U32(12)),
        },
        MetadataEntry {
            key: b"general.name".to_vec(),
            value: MetadataValue::Simple(SimpleValue::Str(b"tiny".to_vec())),
        },
        MetadataEntry {
            key: b"use_cache".to_vec(),
            value: MetadataValue::Simple(SimpleValue::Bool(true)),
        },
    ];
    let tensors = vec![
        TensorDescriptor {
            name: b"t0".to_vec(),
            dims: vec![2, 2],
            element_type: ElementType::I8,
            offset: 0,
        },
        TensorDescriptor {
            name: b"t1".to_vec(),
            dims: vec![4],
            element_type: ElementType::F32,
            offset: 32,
        },
    ];
    let data: Vec<u8> = (0..48u8).collect();
    Document {
        header: Header { version: 1, tensor_count: 2, metadata_count: 3 },
        metadata,
        tensors,
        data,
    }
}

#[test]
fn header_encoding_is_exact() {
    let doc = Document {
        header: Header { version: 1, tensor_count: 0, metadata_count: 0 },
        metadata: vec![],
        tensors: vec![],
        data: vec![],
    };
    let bytes = encode_document(&doc);
    // magic, version=1 LE, tensor_count=0, metadata_count=0, then padding to 32.
    let mut expected = vec![0x47, 0x47, 0x55, 0x46, 1, 0, 0, 0];
    expected.extend_from_slice(&[0u8; 16]);
    expected.extend_from_slice(&[0u8; 8]); // padding from 24 up to 32
    assert_eq!(bytes, expected);
}

#[test]
fn entry_encoding_is_exact() {
    let doc = Document {
        header: Header { version: 1, tensor_count: 0, metadata_count: 1 },
        metadata: vec![MetadataEntry {
            key: b"ab".to_vec(),
            value: MetadataValue::Simple(SimpleValue::U16(0x1234)),
        }],
        tensors: vec![],
        data: vec![],
    };
    let bytes = encode_document(&doc);
    let mut expected = vec![0x47, 0x47, 0x55, 0x46, 1, 0, 0, 0];
    expected.extend_from_slice(&[0, 0, 0, 0, 0, 0, 0, 0]); // tensor_count
    expected.extend_from_slice(&[1, 0, 0, 0, 0, 0, 0, 0]); // metadata_count
    expected.extend_from_slice(&[2, 0, 0, 0, 0, 0, 0, 0]); // key length
    expected.extend_from_slice(b"ab");
    expected.push(2); // tag byte of the unsigned 16-bit variant
    expected.extend_from_slice(&[0x34, 0x12]); // little-endian payload
    while expected.len() % 32 != 0 {
        expected.push(0);
    }
    assert_eq!(bytes, expected);
}

#[test]
fn round_trip_is_byte_identical() {
    let doc = sample_document();
    let bytes = encode_document(&doc);
    let decoded = decode_document(&bytes).expect("sample file must decode");
    let reencoded = encode_document(&decoded);
    assert_eq!(bytes, reencoded);
}

#[test]
fn round_trip_keeps_every_field() {
    let doc = sample_document();
    let bytes = encode_document(&doc);
    let d = decode_document(&bytes).expect("sample file must decode");
    assert_eq!(d.header.version, 1);
    assert_eq!(d.header.tensor_count, 2);
    assert_eq!(d.header.metadata_count, 3);
    assert_eq!(d.metadata.len(), 3);
    assert_eq!(d.metadata[0].key, b"block_count".to_vec());
    assert!(matches!(
        d.metadata[0].value,
        MetadataValue::Simple(SimpleValue::U32(12))
    ));
    assert_eq!(d.tensors.len(), 2);
    assert_eq!(d.tensors[1].offset, 32);
    assert_eq!(d.tensors[1].element_type, ElementType::F32);
    assert_eq!(d.data, (0..48u8).collect::<Vec<u8>>());
}

#[test]
fn array_values_round_trip() {
    let doc = Document {
        header: Header { version: 1, tensor_count: 0, metadata_count: 2 },
        metadata: vec![
            MetadataEntry {
                key: b"dims".to_vec(),
                value: MetadataValue::Arr(
                    ValueTag::U16,
                    vec![SimpleValue::U16(1), SimpleValue::U16(2), SimpleValue::U16(3)],
                ),
            },
            MetadataEntry {
                key: b"names".to_vec(),
                value: MetadataValue::Arr(
                    ValueTag::Str,
                    vec![SimpleValue::Str(b"a".to_vec()), SimpleValue::Str(b"bc".to_vec())],
                ),
            },
        ],
        tensors: vec![],
        data: vec![],
    };
    let bytes = encode_document(&doc);
    let d = decode_document(&bytes).expect("array file must decode");
    match &d.metadata[0].value {
        MetadataValue::Arr(t, els) => {
            assert_eq!(*t, ValueTag::U16);
            assert_eq!(els.len(), 3);
            assert!(matches!(els[2], SimpleValue::U16(3)));
        },
        _ => panic!("expected an array value"),
    }
    assert_eq!(encode_document(&d), bytes);
}

#[test]
fn signed_and_float_bits_round_trip() {
    let doc = Document {
        header: Header { version: 1, tensor_count: 0, metadata_count: 3 },
        metadata: vec![
            MetadataEntry {
                key: b"temp".to_vec(),
                value: MetadataValue::Simple(SimpleValue::F32(1.5f32.to_bits())),
            },
            MetadataEntry {
                key: b"scale".to_vec(),
                value: MetadataValue::Simple(SimpleValue::F64((-0.25f64).to_bits())),
            },
            MetadataEntry {
                key: b"shift".to_vec(),
                value: MetadataValue::Simple(SimpleValue::I16(-1234)),
            },
        ],
        tensors: vec![],
        data: vec![],
    };
    let bytes = encode_document(&doc);
    let d = decode_document(&bytes).expect("must decode");
    match d.metadata[0].value {
        MetadataValue::Simple(SimpleValue::F32(b)) => assert_eq!(f32::from_bits(b), 1.5),
        _ => panic!("expected a 32-bit float value"),
    }
    match d.metadata[1].value {
        MetadataValue::Simple(SimpleValue::F64(b)) => assert_eq!(f64::from_bits(b), -0.25),
        _ => panic!("expected a 64-bit float value"),
    }
    assert!(matches!(d.metadata[2].value, MetadataValue::Simple(SimpleValue::I16(-1234))));
}

#[test]
fn in_place_update_scenario() {
    // Header (magic, version 1, two tensors, three metadata entries); one
    // unsigned 32-bit field updated with no length change: the in-place path
    // is taken, the file size is unchanged, both tensor offsets unchanged.
    let mut doc = sample_document();
    let before = encode_document(&doc);
    let requests = vec![UpdateRequest {
        key: b"block_count".to_vec(),
        value: RequestValue::UInt(99),
    }];
    let mode = update_metadata(&mut doc, &requests).expect("update must apply");
    assert_eq!(mode, WriteMode::InPlace);
    let after = encode_document(&doc);
    assert_eq!(before.len(), after.len());
    assert_eq!(doc.tensors[0].offset, 0);
    assert_eq!(doc.tensors[1].offset, 32);
    assert!(matches!(
        doc.metadata[0].value,
        MetadataValue::Simple(SimpleValue::U32(99))
    ));
}

#[test]
fn type_preserving_update_touches_only_the_value_bytes() {
    let mut doc = sample_document();
    let before = encode_document(&doc);
    let requests = vec![UpdateRequest {
        key: b"block_count".to_vec(),
        value: RequestValue::UInt(99),
    }];
    update_metadata(&mut doc, &requests).expect("update must apply");
    let after = encode_document(&doc);
    assert_eq!(before.len(), after.len());
    let diffs: Vec<usize> = (0..before.len()).filter(|&i| before[i] != after[i]).collect();
    assert!(!diffs.is_empty());
    // The value of the first entry starts after the header (24), the key
    // length prefix (8), the key (11) and the tag byte (1), and is 4 bytes.
    let vstart = 24 + 8 + 11 + 1;
    for i in diffs {
        assert!(vstart <= i && i < vstart + 4);
    }
    // The tensor-data segment is byte-identical.
    assert_eq!(&before[before.len() - 48..], &after[after.len() - 48..]);
}

#[test]
fn growing_update_shifts_offsets_by_the_padded_delta() {
    let mut doc = sample_document();
    let before = encode_document(&doc);
    let old_data_start = before.len() - doc.data.len();
    let old_offsets: Vec<u64> = doc.tensors.iter().map(|t| t.offset).collect();
    let requests = vec![UpdateRequest {
        key: b"general.name".to_vec(),
        value: RequestValue::Str(b"a much longer model name than before".to_vec()),
    }];
    let mode = update_metadata(&mut doc, &requests).expect("update must apply");
    assert_eq!(mode, WriteMode::Rewrite);
    let after = encode_document(&doc);
    let new_data_start = after.len() - doc.data.len();
    let delta = (new_data_start - old_data_start) as u64;
    assert!(delta > 0);
    assert_eq!(delta % 32, 0);
    for (i, t) in doc.tensors.iter().enumerate() {
        assert_eq!(t.offset, old_offsets[i] + delta);
    }
    // The tensor-data bytes are unchanged and contiguous at the new start.
    assert_eq!(&after[new_data_start..], &before[old_data_start..]);
}

#[test]
fn type_mismatch_rejects_the_batch_and_leaves_the_document() {
    // key="block_count" holds an unsigned 32-bit value; a string request
    // must fail with TypeMismatch and change nothing.
    let mut doc = sample_document();
    let before = encode_document(&doc);
    let requests = vec![UpdateRequest {
        key: b"block_count".to_vec(),
        value: RequestValue::Str(b"not a number".to_vec()),
    }];
    let err = update_metadata(&mut doc, &requests).unwrap_err();
    match err {
        GGUFError::TypeMismatch { key, expected, actual } => {
            assert_eq!(key, b"block_count".to_vec());
            assert_eq!(expected, 4); // the unsigned 32-bit tag byte
            assert_eq!(actual, 8); // the string tag byte
        },
        other => panic!("expected TypeMismatch, got {:?}", other),
    }
    assert_eq!(encode_document(&doc), before);
}

#[test]
fn out_of_range_number_is_a_type_mismatch() {
    let mut doc = sample_document();
    let requests = vec![UpdateRequest {
        key: b"block_count".to_vec(),
        value: RequestValue::UInt(1 << 40),
    }];
    assert!(matches!(
        update_metadata(&mut doc, &requests),
        Err(GGUFError::TypeMismatch { .. })
    ));
}

#[test]
fn missing_key_is_inserted_at_the_end() {
    let mut doc = sample_document();
    let requests = vec![UpdateRequest {
        key: b"brand_new".to_vec(),
        value: RequestValue::Int(-7),
    }];
    let mode = update_metadata(&mut doc, &requests).expect("insertion must apply");
    assert_eq!(mode, WriteMode::Rewrite);
    assert_eq!(doc.header.metadata_count, 4);
    assert_eq!(doc.metadata.len(), 4);
    assert_eq!(doc.metadata[3].key, b"brand_new".to_vec());
    assert!(matches!(
        doc.metadata[3].value,
        MetadataValue::Simple(SimpleValue::I64(-7))
    ));
}

#[test]
fn apply_updates_takes_concrete_values() {
    let mut doc = sample_document();
    let ups = vec![ResolvedUpdate {
        key: b"use_cache".to_vec(),
        value: MetadataValue::Simple(SimpleValue::Bool(false)),
    }];
    let mode = apply_updates(&mut doc, &ups).expect("must apply");
    assert_eq!(mode, WriteMode::InPlace);
    assert!(matches!(
        doc.metadata[2].value,
        MetadataValue::Simple(SimpleValue::Bool(false))
    ));
}

#[test]
fn invalid_magic_is_reported_and_nothing_else() {
    let doc = sample_document();
    let mut bytes = encode_document(&doc);
    bytes[0] = b'X';
    assert!(matches!(validate_structure(&bytes), Err(GGUFError::InvalidMagic)));
    assert!(matches!(decode_document(&bytes), Err(GGUFError::InvalidMagic)));
}

#[test]
fn unsupported_version_reports_the_actual_value() {
    let doc = sample_document();
    let mut bytes = encode_document(&doc);
    bytes[4] = 2;
    match validate_structure(&bytes) {
        Err(GGUFError::UnsupportedVersion(v)) => assert_eq!(v, 2),
        other => panic!("expected UnsupportedVersion, got {:?}", other),
    }
}

#[test]
fn truncated_file_is_corrupt() {
    let doc = sample_document();
    let bytes = encode_document(&doc);
    let cut = bytes[..40].to_vec();
    assert!(matches!(decode_document(&cut), Err(GGUFError::CorruptValue(_))));
}

#[test]
fn unknown_tag_byte_is_corrupt() {
    let doc = sample_document();
    let mut bytes = encode_document(&doc);
    // The tag byte of the first entry sits after the header, the key length
    // prefix and the key bytes.
    bytes[24 + 8 + 11] = 200;
    assert!(matches!(decode_document(&bytes), Err(GGUFError::CorruptValue(_))));
}

#[test]
fn backup_bytes_are_identical_to_the_original() {
    let doc = sample_document();
    let bytes = encode_document(&doc);
    let backup = create_backup_bytes(&bytes);
    assert_eq!(backup, bytes);
}

#[test]
fn layout_faults_are_reported_in_order() {
    let mut doc = sample_document();
    doc.header.metadata_count = 4;
    assert_eq!(
        validate_layout(&doc),
        Err(GGUFError::CorruptLayout(LayoutFault::MetadataCount))
    );
    let mut doc = sample_document();
    doc.header.tensor_count = 1;
    assert_eq!(
        validate_layout(&doc),
        Err(GGUFError::CorruptLayout(LayoutFault::TensorCount))
    );
    let mut doc = sample_document();
    doc.metadata[2].key = b"block_count".to_vec();
    assert_eq!(
        validate_layout(&doc),
        Err(GGUFError::CorruptLayout(LayoutFault::DuplicateKey))
    );
    let mut doc = sample_document();
    doc.tensors[0].offset = 64;
    doc.tensors[1].offset = 32;
    assert_eq!(
        validate_layout(&doc),
        Err(GGUFError::CorruptLayout(LayoutFault::OffsetOrder))
    );
    let mut doc = sample_document();
    doc.tensors[1].offset = 33;
    assert_eq!(
        validate_layout(&doc),
        Err(GGUFError::CorruptLayout(LayoutFault::OffsetAlignment))
    );
    let mut doc = sample_document();
    doc.tensors[1].dims = vec![1000]; // extent 32 + 4000 runs past the file
    assert_eq!(
        validate_layout(&doc),
        Err(GGUFError::CorruptLayout(LayoutFault::Extent))
    );
    assert_eq!(validate_layout(&sample_document()), Ok(()));
}

#[test]
fn extent_overflow_is_a_layout_fault() {
    let mut doc = sample_document();
    doc.tensors[1].dims = vec![u64::MAX, u64::MAX];
    assert_eq!(
        validate_layout(&doc),
        Err(GGUFError::CorruptLayout(LayoutFault::Extent))
    );
    // A zero dimension empties the tensor: only its offset must fit.
    let mut doc = sample_document();
    doc.tensors[1].dims = vec![u64::MAX, 0];
    assert_eq!(validate_layout(&doc), Ok(()));
}

#[test]
fn nonzero_padding_does_not_decode() {
    let doc = sample_document();
    let mut bytes = encode_document(&doc);
    let data_start = bytes.len() - doc.data.len();
    // The sample file has padding before the data segment; poison one byte.
    bytes[data_start - 1] = 7;
    assert!(matches!(decode_document(&bytes), Err(GGUFError::CorruptValue(_))));
}

#[test]
fn well_formedness_checks_array_homogeneity() {
    let good = MetadataValue::Arr(ValueTag::U8, vec![SimpleValue::U8(1), SimpleValue::U8(2)]);
    assert!(value_is_wf(&good));
    let mixed = MetadataValue::Arr(ValueTag::U8, vec![SimpleValue::U8(1), SimpleValue::Bool(true)]);
    assert!(!value_is_wf(&mixed));
    let nested_tag = MetadataValue::Arr(ValueTag::Arr, vec![]);
    assert!(!value_is_wf(&nested_tag));
    assert!(value_is_wf(&MetadataValue::Simple(SimpleValue::U8(1))));
}

#[test]
fn absorbed_length_change_still_rewrites() {
    // Shrinking "tiny" to "tin" shortens the raw metadata section by one
    // byte, which the alignment padding absorbs: the aligned data start and
    // every offset stay put. The descriptor section still moves, so the
    // engine must answer Rewrite, never InPlace.
    let mut doc = sample_document();
    let before = encode_document(&doc);
    let requests = vec![UpdateRequest {
        key: b"general.name".to_vec(),
        value: RequestValue::Str(b"tin".to_vec()),
    }];
    let mode = update_metadata(&mut doc, &requests).expect("update must apply");
    assert_eq!(mode, WriteMode::Rewrite);
    let after = encode_document(&doc);
    assert_eq!(before.len(), after.len());
    assert_eq!(doc.tensors[0].offset, 0);
    assert_eq!(doc.tensors[1].offset, 32);
    let d = decode_document(&after).expect("rewritten image must decode");
    assert_eq!(d.metadata[1].key, b"general.name".to_vec());
    assert!(matches!(&d.metadata[1].value,
        MetadataValue::Simple(SimpleValue::Str(s)) if s == &b"tin".to_vec()));
}

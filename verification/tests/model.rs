use spellman::features::FeatureConfig;
use spellman::hash::{FeatureHasher, HashId};
use spellman::model::{
    check_format, check_scales, model_config, num_buckets, pad_index, storage_of, validate, MetadataProblem,
    ModelConfig, ModelError, ModelMetadata, QuantSpec, Storage, TensorName,
};
use spellman::{Lang, NUM_LANGS};

/// The metadata of the test artifact (f16, unquantized).
fn fixture_metadata() -> ModelMetadata {
    ModelMetadata {
        format: "spellman-model".into(),
        version: 3,
        canonicalize: true,
        lexical: true,
        languages: Lang::ALL.iter().map(|l| l.code().to_string()).collect(),
        log2_d: 12,
        hash: "fmix32".into(),
        seed: 0x9E37_79B9,
        n_min: 1,
        n_max: 3,
        theta_bits: 0.3f32.to_bits(),
        quant: QuantSpec::default(),
    }
}

fn int8_metadata(scheme: &str) -> ModelMetadata {
    ModelMetadata {
        quant: QuantSpec {
            dtype: "int8".into(),
            scheme: scheme.into(),
        },
        ..fixture_metadata()
    }
}

#[test]
fn rejects_wrong_inventory() {
    let mut meta = fixture_metadata();
    meta.languages.reverse();
    assert!(validate(&meta).is_err());
    assert_eq!(validate(&meta), Err(MetadataProblem::InventoryMismatch));
}

#[test]
fn rejects_version_2_model() {
    let mut meta = fixture_metadata();
    meta.version = 2;
    meta.lexical = false;
    assert_eq!(validate(&meta), Err(MetadataProblem::UnsupportedVersion(2)));
    // A v3 artifact without the lexical flag is equally rejected.
    meta.version = 3;
    assert!(validate(&meta).is_err());
    assert_eq!(validate(&meta), Err(MetadataProblem::NotLexical));
}

#[test]
fn rejects_unknown_quant_spec() {
    let mut meta = int8_metadata("row");
    assert_eq!(validate(&meta), Ok(()));
    meta.quant.scheme = "banana".into();
    assert!(validate(&meta).is_err());
    assert_eq!(validate(&meta), Err(MetadataProblem::UnsupportedQuant));
}

#[test]
fn fixture_metadata_validates() {
    assert_eq!(validate(&fixture_metadata()), Ok(()));
    assert_eq!(check_format(&fixture_metadata()), Ok(()));
    for scheme in ["row", "column"] {
        assert_eq!(validate(&int8_metadata(scheme)), Ok(()));
    }
}

#[test]
fn each_rule_has_its_error() {
    let mut m = fixture_metadata();
    m.format = "other".into();
    assert_eq!(validate(&m), Err(MetadataProblem::UnexpectedFormat));
    assert_eq!(check_format(&m), Err(MetadataProblem::UnexpectedFormat));

    let mut m = fixture_metadata();
    m.canonicalize = false;
    assert_eq!(validate(&m), Err(MetadataProblem::NotCanonicalizing));

    let mut m = fixture_metadata();
    m.languages.pop();
    assert_eq!(validate(&m), Err(MetadataProblem::InventoryMismatch));

    for bad in [0u32, 31, 40] {
        let mut m = fixture_metadata();
        m.log2_d = bad;
        assert_eq!(validate(&m), Err(MetadataProblem::Log2dOutOfRange(bad)));
    }
    for good in [1u32, 30] {
        let mut m = fixture_metadata();
        m.log2_d = good;
        assert_eq!(validate(&m), Ok(()));
    }

    // The first broken rule wins: format before version.
    let mut m = fixture_metadata();
    m.format = "other".into();
    m.version = 9;
    assert_eq!(validate(&m), Err(MetadataProblem::UnexpectedFormat));
}

#[test]
fn storage_formats_and_scales() {
    let q = |d: &str, s: &str| QuantSpec {
        dtype: d.into(),
        scheme: s.into(),
    };
    assert_eq!(storage_of(&q("float16", "none")), Some(Storage::Float16));
    assert_eq!(storage_of(&q("int8", "row")), Some(Storage::Int8 { per_row: true }));
    assert_eq!(storage_of(&q("int8", "column")), Some(Storage::Int8 { per_row: false }));
    assert_eq!(storage_of(&q("fp8e4m3", "row")), Some(Storage::Fp8E4M3 { per_row: true }));
    assert_eq!(storage_of(&q("fp8e4m3", "column")), Some(Storage::Fp8E4M3 { per_row: false }));
    assert_eq!(storage_of(&q("float16", "row")), None);
    assert_eq!(storage_of(&q("int8", "none")), None);
    assert_eq!(storage_of(&q("int8", "banana")), None);

    assert_eq!(Storage::Float16.scale_count(12), None);
    assert_eq!(Storage::Int8 { per_row: true }.scale_count(12), Some(4097));
    assert_eq!(Storage::Int8 { per_row: false }.scale_count(12), Some(NUM_LANGS as u64));
    assert_eq!(Storage::Fp8E4M3 { per_row: true }.scale_count(3), Some(9));

    // Element 21 of row 0 (eng column) and element 30 (row 1, rus column).
    let row = Storage::Int8 { per_row: true };
    let col = Storage::Int8 { per_row: false };
    assert_eq!(row.scale_index(21), 0);
    assert_eq!(col.scale_index(21), 21);
    assert_eq!(row.scale_index(NUM_LANGS), 1);
    assert_eq!(col.scale_index(NUM_LANGS), 0);
}

#[test]
fn bucket_count_and_padding_row() {
    assert_eq!(num_buckets(12), 4096);
    assert_eq!(num_buckets(0), 1);
    assert_eq!(num_buckets(31), 1 << 31);
    assert_eq!(pad_index(12), 4096);
}

#[test]
fn model_config_checks_shapes_then_hash() {
    let meta = fixture_metadata();
    let table_len = (4096 + 1) * NUM_LANGS;
    assert_eq!(
        model_config(&meta, table_len, NUM_LANGS),
        Ok(ModelConfig {
            log2_d: 12,
            features: FeatureConfig { n_min: 1, n_max: 3 },
            hasher: FeatureHasher {
                id: HashId::Fmix32,
                seed: 0x9E37_79B9,
            },
        })
    );
    assert_eq!(
        model_config(&meta, table_len - 1, NUM_LANGS),
        Err(ModelError::ShapeMismatch {
            name: TensorName::P,
            expected: table_len as u64,
            actual: (table_len - 1) as u64,
        })
    );
    assert_eq!(
        model_config(&meta, table_len, NUM_LANGS + 1),
        Err(ModelError::ShapeMismatch {
            name: TensorName::Bias,
            expected: NUM_LANGS as u64,
            actual: (NUM_LANGS + 1) as u64,
        })
    );
    let mut unknown = fixture_metadata();
    unknown.hash = "sha1".into();
    assert_eq!(
        model_config(&unknown, table_len, NUM_LANGS),
        Err(ModelError::Metadata(MetadataProblem::UnknownHash))
    );
}

#[test]
fn scales_length_follows_the_storage() {
    let row = Storage::Int8 { per_row: true };
    let column = Storage::Fp8E4M3 { per_row: false };
    assert_eq!(check_scales(row, 4, 17), Ok(()));
    assert_eq!(
        check_scales(row, 4, 16),
        Err(ModelError::ShapeMismatch { name: TensorName::Scales, expected: 17, actual: 16 })
    );
    assert_eq!(check_scales(column, 20, NUM_LANGS), Ok(()));
    assert_eq!(
        check_scales(column, 20, 1025),
        Err(ModelError::ShapeMismatch {
            name: TensorName::Scales,
            expected: NUM_LANGS as u64,
            actual: 1025
        })
    );
    assert_eq!(check_scales(Storage::Float16, 10, 0), Ok(()));
}

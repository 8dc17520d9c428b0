//! The runtime contract of a model artifact (`model.json`): which metadata
//! the runtime accepts, how the storage precision of the folded table `P`
//! is laid out, and the host-side configuration a loaded model carries.
//! Reading files and decoding tensors happens outside this library.
use vstd::prelude::*;

use crate::features::FeatureConfig;
use crate::hash::{FeatureHasher, HashId};
use crate::language::{Lang, NUM_LANGS};
use crate::text::{chars_eq, str_chars};

verus! {

/// Storage quantization of `P`: `float16` + `none` is the unquantized
/// artifact; `row` scales are per bucket row, `column` scales per language
/// column.
#[derive(Clone, Debug)]
pub struct QuantSpec {
    /// `float16` | `int8` | `fp8e4m3`.
    pub dtype: String,
    /// `none` | `row` | `column`.
    pub scheme: String,
}

impl Default for QuantSpec {
    fn default() -> (r: Self)
        ensures
            r.dtype@ == "float16"@,
            r.scheme@ == "none"@,
    {
        QuantSpec { dtype: String::from_str("float16"), scheme: String::from_str("none") }
    }
}

/// Metadata of a model artifact (`model.json`). The calibrated confidence
/// threshold θ is carried as the bit pattern of its `f32`.
#[derive(Clone, Debug)]
pub struct ModelMetadata {
    /// Format tag; must be `spellman-model`.
    pub format: String,
    /// Metadata schema version.
    pub version: u32,
    /// Language codes in model-column order (must equal [`Lang::ALL`] order).
    pub languages: Vec<String>,
    /// log2 of the bucket count.
    pub log2_d: u32,
    /// Feature hash id.
    pub hash: String,
    /// Feature hash seed.
    pub seed: u32,
    /// N-gram window.
    pub n_min: u8,
    pub n_max: u8,
    /// Token-class canonicalization flag.
    pub canonicalize: bool,
    /// Lexical channel flag.
    pub lexical: bool,
    /// `f32::to_bits` of the calibrated confidence threshold θ.
    pub theta_bits: u32,
    /// Storage quantization of `P`.
    pub quant: QuantSpec,
}

/// Why metadata is rejected.
#[derive(Copy, Clone, Debug, PartialEq, Eq, Structural)]
pub enum MetadataProblem {
    /// `format` is not `spellman-model`.
    UnexpectedFormat,
    /// The runtime speaks version 3 only.
    UnsupportedVersion(u32),
    /// The model predates token-class canonicalization.
    NotCanonicalizing,
    /// The model predates the lexical word-ngram channel.
    NotLexical,
    /// `languages` differs from the runtime's inventory order.
    InventoryMismatch,
    /// `log2_d` outside `1..31`.
    Log2dOutOfRange(u32),
    /// The dtype/scheme pair is not a supported storage format.
    UnsupportedQuant,
    /// `hash` names no known hash function.
    UnknownHash,
}

/// The model's languages are the runtime's, in column order.
pub open spec fn inventory_matches(languages: Seq<String>) -> bool {
    languages.len() == NUM_LANGS && forall|i: int|
        0 <= i < NUM_LANGS ==> (#[trigger] languages[i])@ == Lang::ALL@[i].spec_code()
}

/// The supported storage formats.
pub open spec fn legal_quant(dtype: Seq<char>, scheme: Seq<char>) -> bool {
    ||| dtype == "float16"@ && scheme == "none"@
    ||| dtype == "int8"@ && scheme == "row"@
    ||| dtype == "int8"@ && scheme == "column"@
    ||| dtype == "fp8e4m3"@ && scheme == "row"@
    ||| dtype == "fp8e4m3"@ && scheme == "column"@
}

/// The first rule the metadata breaks, in checking order, or `Ok`.
pub open spec fn spec_validate(m: ModelMetadata) -> Result<(), MetadataProblem> {
    if m.format@ != "spellman-model"@ {
        Err(MetadataProblem::UnexpectedFormat)
    } else if m.version != 3 {
        Err(MetadataProblem::UnsupportedVersion(m.version))
    } else if !m.canonicalize {
        Err(MetadataProblem::NotCanonicalizing)
    } else if !m.lexical {
        Err(MetadataProblem::NotLexical)
    } else if !inventory_matches(m.languages@) {
        Err(MetadataProblem::InventoryMismatch)
    } else if !(1 <= m.log2_d < 31) {
        Err(MetadataProblem::Log2dOutOfRange(m.log2_d))
    } else if !legal_quant(m.quant.dtype@, m.quant.scheme@) {
        Err(MetadataProblem::UnsupportedQuant)
    } else {
        Ok(())
    }
}

pub(crate) fn str_is(s: &str, lit: &str) -> (r: bool)
    ensures
        r == (s@ == lit@),
{
    let a = str_chars(s);
    let b = str_chars(lit);
    chars_eq(a.as_slice(), b.as_slice())
}

/// Check the format tag only (what reading `model.json` insists on).
pub fn check_format(m: &ModelMetadata) -> (r: Result<(), MetadataProblem>)
    ensures
        r is Ok <==> m.format@ == "spellman-model"@,
        r is Err ==> r == Err::<(), MetadataProblem>(MetadataProblem::UnexpectedFormat),
{
    if str_is(m.format.as_str(), "spellman-model") {
        Ok(())
    } else {
        Err(MetadataProblem::UnexpectedFormat)
    }
}

fn inventory_matches_exec(languages: &Vec<String>) -> (r: bool)
    ensures
        r == inventory_matches(languages@),
{
    if languages.len() != NUM_LANGS {
        return false;
    }
    let mut i: usize = 0;
    while i < NUM_LANGS
        invariant
            languages@.len() == NUM_LANGS,
            i <= NUM_LANGS,
            forall|j: int|
                0 <= j < i ==> (#[trigger] languages@[j])@ == Lang::ALL@[j].spec_code(),
        decreases NUM_LANGS - i,
    {
        if !str_is(languages[i].as_str(), Lang::ALL[i].code()) {
            return false;
        }
        i = i + 1;
    }
    true
}

fn legal_quant_exec(q: &QuantSpec) -> (r: bool)
    ensures
        r == legal_quant(q.dtype@, q.scheme@),
{
    let d = q.dtype.as_str();
    let s = q.scheme.as_str();
    (str_is(d, "float16") && str_is(s, "none")) || (str_is(d, "int8") && str_is(s, "row")) || (
    str_is(d, "int8") && str_is(s, "column")) || (str_is(d, "fp8e4m3") && str_is(s, "row")) || (
    str_is(d, "fp8e4m3") && str_is(s, "column"))
}

/// Validate metadata against the runtime contract: format tag, version 3,
/// both feature-space flags, the language inventory in column order,
/// `log2_d` in `1..31`, and a supported storage format — the first broken
/// rule is reported.
pub fn validate(m: &ModelMetadata) -> (r: Result<(), MetadataProblem>)
    ensures
        r == spec_validate(*m),
{
    if !str_is(m.format.as_str(), "spellman-model") {
        return Err(MetadataProblem::UnexpectedFormat);
    }
    if m.version != 3 {
        return Err(MetadataProblem::UnsupportedVersion(m.version));
    }
    if !m.canonicalize {
        return Err(MetadataProblem::NotCanonicalizing);
    }
    if !m.lexical {
        return Err(MetadataProblem::NotLexical);
    }
    if !inventory_matches_exec(&m.languages) {
        return Err(MetadataProblem::InventoryMismatch);
    }
    if !(1 <= m.log2_d && m.log2_d < 31) {
        return Err(MetadataProblem::Log2dOutOfRange(m.log2_d));
    }
    if !legal_quant_exec(&m.quant) {
        return Err(MetadataProblem::UnsupportedQuant);
    }
    Ok(())
}

/// How the folded table `P` is stored.
#[derive(Copy, Clone, Debug, PartialEq, Eq, Structural)]
pub enum Storage {
    /// f16 values, no scales.
    Float16,
    /// i8 values times a per-row or per-column f32 scale.
    Int8 { per_row: bool },
    /// FP8 E4M3 values times a per-row or per-column f32 scale.
    Fp8E4M3 { per_row: bool },
}

/// The storage format a legal quant spec names.
pub open spec fn spec_storage_of(dtype: Seq<char>, scheme: Seq<char>) -> Option<Storage> {
    if dtype == "float16"@ && scheme == "none"@ {
        Some(Storage::Float16)
    } else if dtype == "int8"@ && (scheme == "row"@ || scheme == "column"@) {
        Some(Storage::Int8 { per_row: scheme == "row"@ })
    } else if dtype == "fp8e4m3"@ && (scheme == "row"@ || scheme == "column"@) {
        Some(Storage::Fp8E4M3 { per_row: scheme == "row"@ })
    } else {
        None
    }
}

/// The storage format of `P` named by a quant spec; `None` for an
/// unsupported pair.
pub fn storage_of(q: &QuantSpec) -> (r: Option<Storage>)
    ensures
        r == spec_storage_of(q.dtype@, q.scheme@),
{
    let d = q.dtype.as_str();
    let s = q.scheme.as_str();
    let row = str_is(s, "row");
    let column = str_is(s, "column");
    if str_is(d, "float16") && str_is(s, "none") {
        Some(Storage::Float16)
    } else if str_is(d, "int8") && (row || column) {
        Some(Storage::Int8 { per_row: row })
    } else if str_is(d, "fp8e4m3") && (row || column) {
        Some(Storage::Fp8E4M3 { per_row: row })
    } else {
        None
    }
}

/// Metadata that validates names a storage format: the table loader never
/// meets an unsupported dtype/scheme pair.
pub proof fn lemma_valid_metadata_has_storage(m: ModelMetadata)
    requires
        spec_validate(m) is Ok,
    ensures
        spec_storage_of(m.quant.dtype@, m.quant.scheme@) is Some,
{
}

impl Storage {
    /// Number of f32 scales stored beside `P` (`None` for f16 storage).
    pub open spec fn spec_scale_count(self, log2_d: u32) -> Option<nat> {
        match self {
            Storage::Float16 => None,
            Storage::Int8 { per_row } | Storage::Fp8E4M3 { per_row } => if per_row {
                Some((pow2_nat(log2_d as nat) + 1) as nat)
            } else {
                Some(NUM_LANGS as nat)
            },
        }
    }

    /// Number of f32 scales stored beside `P`: one per bucket row (`D + 1`)
    /// or one per language column.
    pub fn scale_count(self, log2_d: u32) -> (r: Option<u64>)
        requires
            log2_d < 32,
        ensures
            r matches Some(n) ==> self.spec_scale_count(log2_d) == Some(n as nat),
            r is None ==> self.spec_scale_count(log2_d) is None,
    {
        match self {
            Storage::Float16 => None,
            Storage::Int8 { per_row } | Storage::Fp8E4M3 { per_row } => if per_row {
                proof {
                    lemma_pow2_u64(log2_d);
                }
                Some((1u64 << log2_d) + 1)
            } else {
                Some(NUM_LANGS as u64)
            },
        }
    }

    /// The scale that multiplies element `i` of the row-major `P`
    /// (`[D+1][NUM_LANGS]`): its row's or its column's.
    pub fn scale_index(self, i: usize) -> (r: usize)
        ensures
            r == (if self matches Storage::Int8 { per_row: true } || self matches Storage::Fp8E4M3 {
                per_row: true,
            } {
                i / NUM_LANGS
            } else {
                i % NUM_LANGS
            }),
    {
        let per_row = match self {
            Storage::Float16 => false,
            Storage::Int8 { per_row } | Storage::Fp8E4M3 { per_row } => per_row,
        };
        if per_row {
            i / NUM_LANGS
        } else {
            i % NUM_LANGS
        }
    }
}

/// `2^n` as a natural number.
pub open spec fn pow2_nat(n: nat) -> nat
    decreases n,
{
    if n == 0 {
        1
    } else {
        2 * pow2_nat((n - 1) as nat)
    }
}

/// `1 << n` is `2^n` for shifts below 32.
pub proof fn lemma_pow2_u64(n: u32)
    requires
        n < 32,
    ensures
        (1u64 << n) as nat == pow2_nat(n as nat),
        pow2_nat(n as nat) <= 0x8000_0000,
    decreases n,
{
    if n == 0 {
        assert(1u64 << 0u32 == 1) by (bit_vector);
    } else {
        lemma_pow2_u64((n - 1) as u32);
        assert((1u64 << n) == 2 * (1u64 << ((n - 1) as u32))) by (bit_vector)
            requires
                0 < n < 32,
        ;
    }
    assert((1u64 << n) <= 0x8000_0000u64) by (bit_vector)
        requires
            n < 32,
    ;
}

/// Number of buckets `D = 2^log2_d`.
pub fn num_buckets(log2_d: u32) -> (r: u32)
    requires
        log2_d < 32,
    ensures
        r as nat == pow2_nat(log2_d as nat),
{
    proof {
        lemma_pow2_u64(log2_d);
        assert(log2_d < 32 ==> (1u32 << log2_d) as u64 == (1u64 << log2_d)) by (bit_vector);
    }
    1u32 << log2_d
}

/// Padding index: the all-zero row at `D`.
pub fn pad_index(log2_d: u32) -> (r: u32)
    requires
        log2_d < 32,
    ensures
        r as nat == pow2_nat(log2_d as nat),
{
    num_buckets(log2_d)
}

/// The host-side configuration of a loaded model.
#[derive(Copy, Clone, Debug, PartialEq, Eq, Structural)]
pub struct ModelConfig {
    /// Number of buckets `D = 2^log2_d`; the padding row sits at index `D`.
    pub log2_d: u32,
    pub features: FeatureConfig,
    pub hasher: FeatureHasher,
}

/// A tensor of the artifact.
#[derive(Copy, Clone, Debug, PartialEq, Eq, Structural)]
pub enum TensorName {
    /// The folded table.
    P,
    /// The per-language bias.
    Bias,
    /// The quantization scales.
    Scales,
}

/// Why a model is rejected.
#[derive(Copy, Clone, Debug, PartialEq, Eq, Structural)]
pub enum ModelError {
    /// The metadata breaks the runtime contract.
    Metadata(MetadataProblem),
    /// A tensor has the wrong number of elements.
    ShapeMismatch { name: TensorName, expected: u64, actual: u64 },
}

/// The host configuration of a validated model whose resolved table and
/// bias have the given lengths: `P` must hold `(D + 1) * NUM_LANGS` values
/// and the bias `NUM_LANGS`, then the hash id must be known.
pub open spec fn spec_model_config(m: ModelMetadata, table_len: nat, bias_len: nat) -> Result<
    ModelConfig,
    ModelError,
> {
    let expected = (pow2_nat(m.log2_d as nat) + 1) * NUM_LANGS;
    if table_len != expected {
        Err(
            ModelError::ShapeMismatch {
                name: TensorName::P,
                expected: expected as u64,
                actual: table_len as u64,
            },
        )
    } else if bias_len != NUM_LANGS {
        Err(
            ModelError::ShapeMismatch {
                name: TensorName::Bias,
                expected: NUM_LANGS as u64,
                actual: bias_len as u64,
            },
        )
    } else {
        match HashId::spec_from_id(m.hash@) {
            None => Err(ModelError::Metadata(MetadataProblem::UnknownHash)),
            Some(id) => Ok(
                ModelConfig {
                    log2_d: m.log2_d,
                    features: FeatureConfig { n_min: m.n_min, n_max: m.n_max },
                    hasher: FeatureHasher { id, seed: m.seed },
                },
            ),
        }
    }
}

/// Build the host configuration of a validated model from its metadata
/// and the lengths of its resolved table and bias.
pub fn model_config(m: &ModelMetadata, table_len: usize, bias_len: usize) -> (r: Result<
    ModelConfig,
    ModelError,
>)
    requires
        spec_validate(*m) is Ok,
    ensures
        r == spec_model_config(*m, table_len as nat, bias_len as nat),
{
    proof {
        lemma_pow2_u64(m.log2_d);
    }
    let expected: u64 = ((1u64 << m.log2_d) + 1) * (NUM_LANGS as u64);
    if table_len as u64 != expected {
        return Err(
            ModelError::ShapeMismatch {
                name: TensorName::P,
                expected,
                actual: table_len as u64,
            },
        );
    }
    if bias_len != NUM_LANGS {
        return Err(
            ModelError::ShapeMismatch {
                name: TensorName::Bias,
                expected: NUM_LANGS as u64,
                actual: bias_len as u64,
            },
        );
    }
    match HashId::from_id(m.hash.as_str()) {
        None => Err(ModelError::Metadata(MetadataProblem::UnknownHash)),
        Some(id) => Ok(
            ModelConfig {
                log2_d: m.log2_d,
                features: FeatureConfig { n_min: m.n_min, n_max: m.n_max },
                hasher: FeatureHasher { id, seed: m.seed },
            },
        ),
    }
}

/// The scales stored beside a quantized `P` must hold one value per bucket
/// row (`D + 1`) or one per language column; f16 storage has no scales.
pub open spec fn spec_check_scales(storage: Storage, log2_d: u32, scales_len: nat) -> Result<
    (),
    ModelError,
> {
    match storage.spec_scale_count(log2_d) {
        Some(n) => if scales_len != n {
            Err(
                ModelError::ShapeMismatch {
                    name: TensorName::Scales,
                    expected: n as u64,
                    actual: scales_len as u64,
                },
            )
        } else {
            Ok(())
        },
        None => Ok(()),
    }
}

/// Check the length of the scales tensor read beside a `P` stored as
/// `storage`.
pub fn check_scales(storage: Storage, log2_d: u32, scales_len: usize) -> (r: Result<(), ModelError>)
    requires
        log2_d < 32,
    ensures
        r == spec_check_scales(storage, log2_d, scales_len as nat),
{
    match storage.scale_count(log2_d) {
        Some(n) => if scales_len as u64 != n {
            Err(ModelError::ShapeMismatch { name: TensorName::Scales, expected: n, actual: scales_len as u64 })
        } else {
            Ok(())
        },
        None => Ok(()),
    }
}

} // verus!

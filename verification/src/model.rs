//! What a model is made of, read from a GGUF file.
use crate::tensor;
use crate::tensor::Tensor;
use crate::text;
use crate::text::push_decimal;
use ggus::GGuf;
use vstd::prelude::*;
use vstd::string::StringExecFns;

verus! {

/// A GGUF file: its metadata and its tensors.
#[verifier::external_type_specification]
#[verifier::external_body]
pub struct ExGGuf<'a>(GGuf<'a>);

/// The keys of the metadata of a file.
pub uninterp spec fn meta_keys(gguf: &GGuf<'_>) -> Set<Seq<char>>;

/// The metadata of a file that are strings.
pub uninterp spec fn meta_strs(gguf: &GGuf<'_>) -> Map<Seq<char>, Seq<char>>;

/// The metadata of a file that are integers not below 0, or truth values.
pub uninterp spec fn meta_usizes(gguf: &GGuf<'_>) -> Map<Seq<char>, usize>;

/// The metadata of a file that are numbers of single precision, by their bits.
pub uninterp spec fn meta_f32s(gguf: &GGuf<'_>) -> Map<Seq<char>, u32>;

/// The metadata of a file that are arrays of strings, by their lengths.
pub uninterp spec fn meta_str_arrs(gguf: &GGuf<'_>) -> Map<Seq<char>, usize>;

/// The tensors of a file, by the codes of their element types.
pub uninterp spec fn tensor_types(gguf: &GGuf<'_>) -> Map<Seq<char>, u32>;

/// How many elements a block of an element type has, and how many bytes.
pub uninterp spec fn type_sizes(code: u32) -> (u32, u32);

/// `ggus::GGufMetaMap::get` finds something under a key exactly when it is one of the keys
/// of the metadata.
#[verifier::external_body]
fn has_meta(gguf: &GGuf<'_>, key: &str) -> (has: bool)
    ensures
        has == meta_keys(gguf).contains(key@),
{
    ggus::GGufMetaMap::get(gguf, key).is_some()
}

/// `ggus::GGufMetaMapExt::get_str` reads a string under a key; it fails where there is
/// nothing under the key, or something else.
#[verifier::external_body]
fn get_str<'b>(gguf: &'b GGuf<'_>, key: &str) -> (value: Option<&'b str>)
    ensures
        match value {
            Some(value) => meta_strs(gguf).contains_key(key@) && meta_strs(gguf)[key@] == value@,
            None => !meta_strs(gguf).contains_key(key@),
        },
{
    ggus::GGufMetaMapExt::get_str(gguf, key).ok()
}

/// `ggus::GGufMetaMapExt::get_usize` reads an integer or a truth value under a key; it fails
/// where there is nothing under the key, something else, or a number that is below 0 or too
/// large.
#[verifier::external_body]
fn get_usize(gguf: &GGuf<'_>, key: &str) -> (value: Option<usize>)
    ensures
        match value {
            Some(value) => meta_usizes(gguf).contains_key(key@) && meta_usizes(gguf)[key@]
                == value,
            None => !meta_usizes(gguf).contains_key(key@),
        },
{
    ggus::GGufMetaMapExt::get_usize(gguf, key).ok()
}

/// `ggus::GGufMetaMapExt::get_f32` reads a number of single precision under a key; it fails
/// where there is nothing under the key, or something else. The number is handed out by its
/// bits.
#[verifier::external_body]
fn get_f32(gguf: &GGuf<'_>, key: &str) -> (bits: Option<u32>)
    ensures
        match bits {
            Some(bits) => meta_f32s(gguf).contains_key(key@) && meta_f32s(gguf)[key@] == bits,
            None => !meta_f32s(gguf).contains_key(key@),
        },
{
    ggus::GGufMetaMapExt::get_f32(gguf, key).ok().map(|value| value.to_bits())
}

/// `ggus::GGufMetaMapExt::get_str_arr` reads an array of strings under a key; it fails where
/// there is nothing under the key, or something else. Of the array, its length is handed out.
#[verifier::external_body]
fn get_str_arr(gguf: &GGuf<'_>, key: &str) -> (len: Option<usize>)
    ensures
        match len {
            Some(len) => meta_str_arrs(gguf).contains_key(key@) && meta_str_arrs(gguf)[key@]
                == len,
            None => !meta_str_arrs(gguf).contains_key(key@),
        },
{
    ggus::GGufMetaMapExt::get_str_arr(gguf, key).ok().map(|array| array.len())
}

/// `ggus::GGufTensorMeta::to_info` of a tensor of the file, and the code of the element type
/// that it shows.
#[verifier::external_body]
fn tensor_type(gguf: &GGuf<'_>, name: &str) -> (code: Option<u32>)
    ensures
        match code {
            Some(code) => tensor_types(gguf).contains_key(name@) && tensor_types(gguf)[name@]
                == code,
            None => !tensor_types(gguf).contains_key(name@),
        },
{
    gguf.tensors.get(name).map(|tensor| tensor.to_info().ty() as u32)
}

/// `ggus::GGmlType::size` of the element type of a tensor: how many elements a block has,
/// and how many bytes. It depends on the type alone. An element of single precision takes
/// 4 bytes, one of half precision 2. Types that have no size there are left out.
#[verifier::external_body]
fn tensor_size(gguf: &GGuf<'_>, name: &str) -> (sizes: Option<(u32, u32)>)
    requires
        tensor_types(gguf).contains_key(name@) ==> is_supported(tensor_types(gguf)[name@]),
    ensures
        match sizes {
            Some(sizes) => {
                &&& tensor_types(gguf).contains_key(name@)
                &&& sizes == type_sizes(tensor_types(gguf)[name@])
                &&& tensor_types(gguf)[name@] == F32 ==> sizes == (1u32, 4u32)
                &&& tensor_types(gguf)[name@] == F16 ==> sizes == (1u32, 2u32)
                &&& tensor_types(gguf)[name@] == BF16 ==> sizes == (1u32, 2u32)
            },
            None => !tensor_types(gguf).contains_key(name@),
        },
{
    gguf.tensors.get(name).map(
        |tensor|
            {
                let size = tensor.to_info().ty().size();
                (size.block_size, size.type_size)
            },
    )
}

/// The code of elements of single precision.
pub const F32: u32 = 0;

/// The code of elements of half precision.
pub const F16: u32 = 1;

/// The code of elements of half precision with the range of single precision.
pub const BF16: u32 = 30;

/// An element type can be worked with: its code is none of those that are retired or that
/// only repack others.
pub open spec fn is_supported(code: u32) -> bool {
    code != 4 && code != 5 && code != 31 && code != 32 && code != 33
}

/// The architectures that can be read.
#[derive(Clone, Copy, PartialEq, Eq, Structural, Debug)]
pub enum Arch {
    Llama,
    Qwen2,
}

/// The keys under which the metadata of a model stand.
#[derive(Clone, Copy, PartialEq, Eq, Structural, Debug)]
pub enum MetaKey {
    Architecture,
    Tokens,
    ContextLength,
    BlockCount,
    EmbeddingLength,
    HeadCount,
    HeadCountKv,
    RopeDimensionCount,
    FeedForwardLength,
    RmsEpsilon,
    RopeFreqBase,
}

/// The key in full. Most begin with the name of the architecture.
pub open spec fn key_name(key: MetaKey, arch: Seq<char>) -> Seq<char> {
    match key {
        MetaKey::Architecture => "general.architecture"@,
        MetaKey::Tokens => "tokenizer.ggml.tokens"@,
        MetaKey::ContextLength => arch + ".context_length"@,
        MetaKey::BlockCount => arch + ".block_count"@,
        MetaKey::EmbeddingLength => arch + ".embedding_length"@,
        MetaKey::HeadCount => arch + ".attention.head_count"@,
        MetaKey::HeadCountKv => arch + ".attention.head_count_kv"@,
        MetaKey::RopeDimensionCount => arch + ".rope.dimension_count"@,
        MetaKey::FeedForwardLength => arch + ".feed_forward_length"@,
        MetaKey::RmsEpsilon => arch + ".attention.layer_norm_rms_epsilon"@,
        MetaKey::RopeFreqBase => arch + ".rope.freq_base"@,
    }
}

impl MetaKey {
    /// The key in full.
    pub fn name(self, arch: &str) -> (name: String)
        ensures
            name@ == key_name(self, arch@),
    {
        let rest = match self {
            MetaKey::Architecture => {
                return "general.architecture".to_owned();
            },
            MetaKey::Tokens => {
                return "tokenizer.ggml.tokens".to_owned();
            },
            MetaKey::ContextLength => ".context_length",
            MetaKey::BlockCount => ".block_count",
            MetaKey::EmbeddingLength => ".embedding_length",
            MetaKey::HeadCount => ".attention.head_count",
            MetaKey::HeadCountKv => ".attention.head_count_kv",
            MetaKey::RopeDimensionCount => ".rope.dimension_count",
            MetaKey::FeedForwardLength => ".feed_forward_length",
            MetaKey::RmsEpsilon => ".attention.layer_norm_rms_epsilon",
            MetaKey::RopeFreqBase => ".rope.freq_base",
        };
        let mut name = arch.to_owned();
        name.append(rest);
        name
    }
}

/// The tensors of one block of a model.
#[derive(Clone, Copy, PartialEq, Eq, Structural, Debug)]
pub enum Part {
    AttnNorm,
    AttnQkv,
    AttnQkvBias,
    AttnOutput,
    FfnNorm,
    FfnGateUp,
    FfnDown,
}

/// The tensors of a model. The tables of sines and cosines are computed, the others stand in
/// its files.
#[derive(Clone, Copy, PartialEq, Eq, Structural, Debug)]
pub enum TensorName {
    TokenEmbd,
    OutputNorm,
    Output,
    Blk(usize, Part),
    SinTable,
    CosTable,
}

/// What a tensor of a block is called, behind the number of the block.
pub open spec fn part_name(part: Part) -> Seq<char> {
    match part {
        Part::AttnNorm => ".attn_norm.weight"@,
        Part::AttnQkv => ".attn_qkv.weight"@,
        Part::AttnQkvBias => ".attn_qkv.bias"@,
        Part::AttnOutput => ".attn_output.weight"@,
        Part::FfnNorm => ".ffn_norm.weight"@,
        Part::FfnGateUp => ".ffn_gate_up.weight"@,
        Part::FfnDown => ".ffn_down.weight"@,
    }
}

/// What a tensor is called.
pub open spec fn tensor_name(name: TensorName) -> Seq<char> {
    match name {
        TensorName::TokenEmbd => "token_embd.weight"@,
        TensorName::OutputNorm => "output_norm.weight"@,
        TensorName::Output => "output.weight"@,
        TensorName::Blk(iblk, part) => "blk."@ + text::decimal(iblk as nat) + part_name(part),
        TensorName::SinTable => "sin_table"@,
        TensorName::CosTable => "cos_table"@,
    }
}

impl TensorName {
    /// What the tensor is called.
    pub fn name(self) -> (name: String)
        ensures
            name@ == tensor_name(self),
    {
        match self {
            TensorName::TokenEmbd => "token_embd.weight".to_owned(),
            TensorName::OutputNorm => "output_norm.weight".to_owned(),
            TensorName::Output => "output.weight".to_owned(),
            TensorName::Blk(iblk, part) => {
                let mut name = "blk.".to_owned();
                push_decimal(&mut name, iblk);
                name.append(
                    match part {
                        Part::AttnNorm => ".attn_norm.weight",
                        Part::AttnQkv => ".attn_qkv.weight",
                        Part::AttnQkvBias => ".attn_qkv.bias",
                        Part::AttnOutput => ".attn_output.weight",
                        Part::FfnNorm => ".ffn_norm.weight",
                        Part::FfnGateUp => ".ffn_gate_up.weight",
                        Part::FfnDown => ".ffn_down.weight",
                    },
                );
                name
            },
            TensorName::SinTable => "sin_table".to_owned(),
            TensorName::CosTable => "cos_table".to_owned(),
        }
    }
}

/// Why a model cannot be read from its files.
#[derive(Clone, Copy, PartialEq, Eq, Structural, Debug)]
pub enum ModelError {
    /// Something that has no default is missing from the metadata.
    Missing(MetaKey),
    /// Something in the metadata is not of the kind that it should be.
    Unreadable(MetaKey),
    /// The architecture is not one of those that can be read.
    Arch,
    /// A tensor is missing.
    NoTensor(TensorName),
    /// The element type of a tensor cannot be worked with.
    Type(u32),
    /// The width of a head is not given, and there are no heads to share the embedding.
    NoHeads,
    /// The dimensions of the model are too large.
    TooLarge,
    /// The heads have an odd width, and cannot be turned in pairs.
    OddHeads,
}

/// What the files of a model hold.
pub struct Contents {
    pub keys: Set<Seq<char>>,
    pub strs: Map<Seq<char>, Seq<char>>,
    pub usizes: Map<Seq<char>, usize>,
    pub f32s: Map<Seq<char>, u32>,
    pub str_arrs: Map<Seq<char>, usize>,
    pub tensors: Map<Seq<char>, u32>,
}

/// A model in one or more GGUF files, each of which has a part of the metadata and of the
/// tensors. What several of them have is taken from the first.
pub struct GGufModel<'a> {
    pub files: Vec<GGuf<'a>>,
}

/// The first of some files that has metadata under a key; how many they are where none has.
pub open spec fn meta_holder(files: Seq<GGuf<'_>>, key: Seq<char>) -> nat
    decreases files.len(),
{
    if files.len() == 0 || meta_keys(&files[0]).contains(key) {
        0
    } else {
        1 + meta_holder(files.drop_first(), key)
    }
}

/// The first of some files that has a tensor; how many they are where none has.
pub open spec fn tensor_holder(files: Seq<GGuf<'_>>, name: Seq<char>) -> nat
    decreases files.len(),
{
    if files.len() == 0 || tensor_types(&files[0]).contains_key(name) {
        0
    } else {
        1 + tensor_holder(files.drop_first(), name)
    }
}

/// What the files of a model hold between them.
pub open spec fn contents(gguf: &GGufModel<'_>) -> Contents {
    let files = gguf.files@;
    let has = |key: Seq<char>| meta_holder(files, key) < files.len();
    let at = |key: Seq<char>| files[meta_holder(files, key) as int];
    Contents {
        keys: Set::new(|key: Seq<char>| has(key)),
        strs: Map::new(
            |key: Seq<char>| has(key) && meta_strs(&at(key)).contains_key(key),
            |key: Seq<char>| meta_strs(&at(key))[key],
        ),
        usizes: Map::new(
            |key: Seq<char>| has(key) && meta_usizes(&at(key)).contains_key(key),
            |key: Seq<char>| meta_usizes(&at(key))[key],
        ),
        f32s: Map::new(
            |key: Seq<char>| has(key) && meta_f32s(&at(key)).contains_key(key),
            |key: Seq<char>| meta_f32s(&at(key))[key],
        ),
        str_arrs: Map::new(
            |key: Seq<char>| has(key) && meta_str_arrs(&at(key)).contains_key(key),
            |key: Seq<char>| meta_str_arrs(&at(key))[key],
        ),
        tensors: Map::new(
            |name: Seq<char>| tensor_holder(files, name) < files.len(),
            |name: Seq<char>| tensor_types(&files[tensor_holder(files, name) as int])[name],
        ),
    }
}

impl<'a> GGufModel<'a> {
    /// The first file that has metadata under a key.
    fn find_meta(&self, key: &str) -> (file: Option<&GGuf<'a>>)
        ensures
            match file {
                Some(file) => meta_holder(self.files@, key@) < self.files@.len() && *file
                    == self.files@[meta_holder(self.files@, key@) as int],
                None => meta_holder(self.files@, key@) == self.files@.len(),
            },
    {
        let ghost files = self.files@;
        assert(files.skip(0) =~= files);
        let mut i: usize = 0;
        while i < self.files.len()
            invariant
                files == self.files@,
                i <= files.len(),
                meta_holder(files, key@) == i + meta_holder(files.skip(i as int), key@),
            decreases files.len() - i,
        {
            assert(files.skip(i as int)[0] == files[i as int]);
            assert(files.skip(i as int).drop_first() =~= files.skip(i as int + 1));
            if has_meta(&self.files[i], key) {
                return Some(&self.files[i]);
            }
            i = i + 1;
        }
        None
    }

    /// The first file that has a tensor.
    fn find_tensor(&self, name: &str) -> (file: Option<&GGuf<'a>>)
        ensures
            match file {
                Some(file) => tensor_holder(self.files@, name@) < self.files@.len() && *file
                    == self.files@[tensor_holder(self.files@, name@) as int]
                    && tensor_types(file).contains_key(name@),
                None => tensor_holder(self.files@, name@) == self.files@.len(),
            },
    {
        let ghost files = self.files@;
        assert(files.skip(0) =~= files);
        let mut i: usize = 0;
        while i < self.files.len()
            invariant
                files == self.files@,
                i <= files.len(),
                tensor_holder(files, name@) == i + tensor_holder(files.skip(i as int), name@),
            decreases files.len() - i,
        {
            assert(files.skip(i as int)[0] == files[i as int]);
            assert(files.skip(i as int).drop_first() =~= files.skip(i as int + 1));
            if tensor_type(&self.files[i], name).is_some() {
                return Some(&self.files[i]);
            }
            i = i + 1;
        }
        None
    }
}

/// What comes of reading something that may be missing or of the wrong kind.
pub open spec fn reading<T>(
    keys: Set<Seq<char>>,
    values: Map<Seq<char>, T>,
    key: MetaKey,
    arch: Seq<char>,
) -> Result<T, ModelError> {
    let name = key_name(key, arch);
    if values.contains_key(name) {
        Ok(values[name])
    } else if keys.contains(name) {
        Err(ModelError::Unreadable(key))
    } else {
        Err(ModelError::Missing(key))
    }
}

/// The same, with a default for what is missing.
pub open spec fn or_default<T>(read: Result<T, ModelError>, default: T) -> Result<T, ModelError> {
    match read {
        Err(ModelError::Missing(_)) => Ok(default),
        _ => read,
    }
}

/// The error of a reading.
pub open spec fn error_of<T>(read: Result<T, ModelError>) -> Option<ModelError> {
    match read {
        Ok(_) => None,
        Err(e) => Some(e),
    }
}

/// The first of two errors.
pub open spec fn first(a: Option<ModelError>, b: Option<ModelError>) -> Option<ModelError> {
    match a {
        Some(_) => a,
        None => b,
    }
}

/// What the files say of the width of a head: if nothing, the embedding divided by the heads.
pub open spec fn head_width(
    read: Result<usize, ModelError>,
    d: usize,
    nh: usize,
) -> Result<usize, ModelError> {
    match read {
        Err(ModelError::Missing(_)) => if nh == 0 {
            Err(ModelError::NoHeads)
        } else {
            Ok(d / nh)
        },
        _ => read,
    }
}

/// What comes of reading the element type of a tensor.
pub open spec fn reading_type(
    tensors: Map<Seq<char>, u32>,
    name: TensorName,
) -> Result<u32, ModelError> {
    if !tensors.contains_key(tensor_name(name)) {
        Err(ModelError::NoTensor(name))
    } else if is_supported(tensors[tensor_name(name)]) {
        Ok(tensors[tensor_name(name)])
    } else {
        Err(ModelError::Type(tensors[tensor_name(name)]))
    }
}

impl Contents {
    /// The name of the architecture, as the files have it.
    pub open spec fn arch_name(self) -> Seq<char> {
        self.strs["general.architecture"@]
    }

    /// The architecture.
    pub open spec fn arch(self) -> Result<Arch, ModelError> {
        match reading(self.keys, self.strs, MetaKey::Architecture, seq![]) {
            Err(e) => Err(e),
            Ok(name) => if name == "llama"@ {
                Ok(Arch::Llama)
            } else if name == "qwen2"@ {
                Ok(Arch::Qwen2)
            } else {
                Err(ModelError::Arch)
            },
        }
    }

    /// A number that has no default.
    pub open spec fn number(self, key: MetaKey) -> Result<usize, ModelError> {
        reading(self.keys, self.usizes, key, self.arch_name())
    }

    /// A number of single precision that has a default, by its bits.
    pub open spec fn fraction(self, key: MetaKey, default: u32) -> Result<u32, ModelError> {
        or_default(reading(self.keys, self.f32s, key, self.arch_name()), default)
    }

    /// The size of the vocabulary.
    pub open spec fn nvoc(self) -> Result<usize, ModelError> {
        reading(self.keys, self.str_arrs, MetaKey::Tokens, self.arch_name())
    }

    /// The heads of keys and values: if nothing is said of them, as many as of queries.
    pub open spec fn nkvh(self) -> Result<usize, ModelError> {
        or_default(self.number(MetaKey::HeadCountKv), self.number(MetaKey::HeadCount)->Ok_0)
    }

    /// The width of a head.
    pub open spec fn dh(self) -> Result<usize, ModelError> {
        head_width(
            self.number(MetaKey::RopeDimensionCount),
            self.number(MetaKey::EmbeddingLength)->Ok_0,
            self.number(MetaKey::HeadCount)->Ok_0,
        )
    }

    /// The element type of the biases, if the architecture has any.
    pub open spec fn bias(self) -> Result<Option<u32>, ModelError> {
        match self.arch() {
            Ok(Arch::Qwen2) => match reading_type(
                self.tensors,
                TensorName::Blk(0, Part::AttnQkvBias),
            ) {
                Ok(code) => Ok(Some(code)),
                Err(e) => Err(e),
            },
            _ => Ok(None),
        }
    }
}

/// The bits of the default for what keeps a normalization from dividing by 0: one in a
/// hundred thousand.
pub const EPSILON: u32 = 0x3727_C5AC;

/// The bits of the default for the base of the rotations: ten thousand.
pub const THETA: u32 = 0x461C_4000;

/// The dimensions of a model and the element types of its tensors.
#[derive(Clone, Copy, PartialEq, Eq, Structural, Debug)]
pub struct ModelMeta {
    /// The element type of the biases.
    pub dt_bias: Option<u32>,
    /// The size of the vocabulary.
    pub nvoc: usize,
    /// The tokens that a conversation may have.
    pub nctx: usize,
    /// The blocks.
    pub nblk: usize,
    /// The width of the embedding.
    pub d: usize,
    /// The heads of queries.
    pub nh: usize,
    /// The heads of keys and values.
    pub nkvh: usize,
    /// The width of a head.
    pub dh: usize,
    /// The width of the feed forward layer.
    pub di: usize,
    /// What keeps a normalization from dividing by 0, by its bits.
    pub epsilon: u32,
    pub dt_embd: u32,
    pub dt_norm: u32,
    pub dt_linear: u32,
    /// The base of the rotations, by its bits.
    pub theta: u32,
}

/// What the files of a model say of it.
pub open spec fn meta_of(c: Contents) -> ModelMeta {
    ModelMeta {
        dt_bias: c.bias()->Ok_0,
        nvoc: c.nvoc()->Ok_0,
        nctx: c.number(MetaKey::ContextLength)->Ok_0,
        nblk: c.number(MetaKey::BlockCount)->Ok_0,
        d: c.number(MetaKey::EmbeddingLength)->Ok_0,
        nh: c.number(MetaKey::HeadCount)->Ok_0,
        nkvh: c.nkvh()->Ok_0,
        dh: c.dh()->Ok_0,
        di: c.number(MetaKey::FeedForwardLength)->Ok_0,
        epsilon: c.fraction(MetaKey::RmsEpsilon, EPSILON)->Ok_0,
        dt_embd: reading_type(c.tensors, TensorName::TokenEmbd)->Ok_0,
        dt_norm: reading_type(c.tensors, TensorName::OutputNorm)->Ok_0,
        dt_linear: reading_type(c.tensors, TensorName::Blk(0, Part::AttnQkv))->Ok_0,
        theta: c.fraction(MetaKey::RopeFreqBase, THETA)->Ok_0,
    }
}

/// The first thing that is wrong with what the files of a model say of it.
pub open spec fn meta_error(c: Contents) -> Option<ModelError> {
    first(
        error_of(c.arch()),
        first(
            error_of(c.bias()),
            first(
                error_of(c.nvoc()),
                first(
                    error_of(c.number(MetaKey::ContextLength)),
                    first(
                        error_of(c.number(MetaKey::BlockCount)),
                        first(
                            error_of(c.number(MetaKey::EmbeddingLength)),
                            first(
                                error_of(c.number(MetaKey::HeadCount)),
                                first(
                                    error_of(c.nkvh()),
                                    first(
                                        error_of(c.dh()),
                                        first(
                                            error_of(c.number(MetaKey::FeedForwardLength)),
                                            type_error(c),
                                        ),
                                    ),
                                ),
                            ),
                        ),
                    ),
                ),
            ),
        ),
    )
}

/// The first thing that is wrong with the numbers of single precision and the element types.
pub open spec fn type_error(c: Contents) -> Option<ModelError> {
    first(
        error_of(c.fraction(MetaKey::RmsEpsilon, EPSILON)),
        first(
            error_of(reading_type(c.tensors, TensorName::TokenEmbd)),
            first(
                error_of(reading_type(c.tensors, TensorName::OutputNorm)),
                first(
                    error_of(reading_type(c.tensors, TensorName::Blk(0, Part::AttnQkv))),
                    error_of(c.fraction(MetaKey::RopeFreqBase, THETA)),
                ),
            ),
        ),
    )
}

fn read_int(gguf: &GGufModel<'_>, arch: &str, key: MetaKey) -> (read: Result<usize, ModelError>)
    ensures
        read == reading(contents(gguf).keys, contents(gguf).usizes, key, arch@),
{
    let name = key.name(arch);
    match gguf.find_meta(name.as_str()) {
        None => Err(ModelError::Missing(key)),
        Some(file) => match get_usize(file, name.as_str()) {
            Some(value) => Ok(value),
            None => Err(ModelError::Unreadable(key)),
        },
    }
}

fn read_float(gguf: &GGufModel<'_>, arch: &str, key: MetaKey, default: u32) -> (read: Result<
    u32,
    ModelError,
>)
    ensures
        read == or_default(
            reading(contents(gguf).keys, contents(gguf).f32s, key, arch@),
            default,
        ),
{
    let name = key.name(arch);
    match gguf.find_meta(name.as_str()) {
        None => Ok(default),
        Some(file) => match get_f32(file, name.as_str()) {
            Some(value) => Ok(value),
            None => Err(ModelError::Unreadable(key)),
        },
    }
}

fn read_type(gguf: &GGufModel<'_>, name: TensorName) -> (read: Result<u32, ModelError>)
    ensures
        read == reading_type(contents(gguf).tensors, name),
{
    let text = name.name();
    let code: u32 = match gguf.find_tensor(text.as_str()) {
        None => {
            return Err(ModelError::NoTensor(name));
        },
        Some(file) => match tensor_type(file, text.as_str()) {
            None => 0,
            Some(code) => code,
        },
    };
    if code != 4 && code != 5 && code != 31 && code != 32 && code != 33 {
        Ok(code)
    } else {
        Err(ModelError::Type(code))
    }
}

fn read_arch<'b>(gguf: &'b GGufModel<'_>) -> (read: Result<&'b str, ModelError>)
    ensures
        match read {
            Ok(arch) => reading(
                contents(gguf).keys,
                contents(gguf).strs,
                MetaKey::Architecture,
                seq![],
            ) == Ok::<Seq<char>, ModelError>(arch@) && arch@ == contents(gguf).arch_name(),
            Err(e) => reading(
                contents(gguf).keys,
                contents(gguf).strs,
                MetaKey::Architecture,
                seq![],
            ) == Err::<Seq<char>, ModelError>(e),
        },
{
    match gguf.find_meta("general.architecture") {
        None => Err(ModelError::Missing(MetaKey::Architecture)),
        Some(file) => match get_str(file, "general.architecture") {
            Some(arch) => Ok(arch),
            None => Err(ModelError::Unreadable(MetaKey::Architecture)),
        },
    }
}

fn read_nvoc(gguf: &GGufModel<'_>) -> (read: Result<usize, ModelError>)
    ensures
        read == contents(gguf).nvoc(),
{
    match gguf.find_meta("tokenizer.ggml.tokens") {
        None => Err(ModelError::Missing(MetaKey::Tokens)),
        Some(file) => match get_str_arr(file, "tokenizer.ggml.tokens") {
            Some(len) => Ok(len),
            None => Err(ModelError::Unreadable(MetaKey::Tokens)),
        },
    }
}

fn read_nkvh(gguf: &GGufModel<'_>, arch: &str, nh: usize) -> (read: Result<usize, ModelError>)
    ensures
        read == or_default(
            reading(contents(gguf).keys, contents(gguf).usizes, MetaKey::HeadCountKv, arch@),
            nh,
        ),
{
    match read_int(gguf, arch, MetaKey::HeadCountKv) {
        Err(ModelError::Missing(_)) => Ok(nh),
        read => read,
    }
}

fn read_dh(gguf: &GGufModel<'_>, arch: &str, d: usize, nh: usize) -> (read: Result<usize, ModelError>)
    ensures
        read == head_width(
            reading(contents(gguf).keys, contents(gguf).usizes, MetaKey::RopeDimensionCount, arch@),
            d,
            nh,
        ),
{
    match read_int(gguf, arch, MetaKey::RopeDimensionCount) {
        Err(ModelError::Missing(_)) => if nh == 0 {
            Err(ModelError::NoHeads)
        } else {
            Ok(d / nh)
        },
        read => read,
    }
}

/// Reads what the files of a model say of it. The heads of keys and values default to those of
/// queries, the width of a head to the embedding divided by the heads.
pub fn read_meta(gguf: &GGufModel<'_>) -> (read: Result<ModelMeta, ModelError>)
    ensures
        match read {
            Ok(meta) => meta_error(contents(gguf)) is None && meta == meta_of(contents(gguf)),
            Err(e) => meta_error(contents(gguf)) == Some(e),
        },
{
    let arch = match read_arch(gguf) {
        Ok(arch) => arch,
        Err(e) => {
            return Err(e);
        },
    };
    let name = arch.to_owned();
    let dt_bias = if name == "llama".to_owned() {
        None
    } else if name == "qwen2".to_owned() {
        match read_type(gguf, TensorName::Blk(0, Part::AttnQkvBias)) {
            Ok(code) => Some(code),
            Err(e) => {
                return Err(e);
            },
        }
    } else {
        return Err(ModelError::Arch);
    };
    let nvoc = read_nvoc(gguf)?;
    let nctx = read_int(gguf, arch, MetaKey::ContextLength)?;
    let nblk = read_int(gguf, arch, MetaKey::BlockCount)?;
    let d = read_int(gguf, arch, MetaKey::EmbeddingLength)?;
    let nh = read_int(gguf, arch, MetaKey::HeadCount)?;
    let nkvh = read_nkvh(gguf, arch, nh)?;
    let dh = read_dh(gguf, arch, d, nh)?;
    let di = read_int(gguf, arch, MetaKey::FeedForwardLength)?;
    let epsilon = read_float(gguf, arch, MetaKey::RmsEpsilon, EPSILON)?;
    let dt_embd = read_type(gguf, TensorName::TokenEmbd)?;
    let dt_norm = read_type(gguf, TensorName::OutputNorm)?;
    let dt_linear = read_type(gguf, TensorName::Blk(0, Part::AttnQkv))?;
    let theta = read_float(gguf, arch, MetaKey::RopeFreqBase, THETA)?;
    Ok(
        ModelMeta {
            dt_bias,
            nvoc,
            nctx,
            nblk,
            d,
            nh,
            nkvh,
            dh,
            di,
            epsilon,
            dt_embd,
            dt_norm,
            dt_linear,
            theta,
        },
    )
}

/// A table of vectors, one for each token of the vocabulary.
#[derive(Clone, Copy, PartialEq, Eq, Structural, Debug)]
pub struct Embedding {
    pub dt: u32,
    pub d: usize,
    pub row: usize,
    pub wte: TensorName,
}

/// How vectors are normalized.
#[derive(Clone, Copy, PartialEq, Eq, Structural, Debug)]
pub enum NormType {
    RmsNorm { dt: u32, scale: TensorName },
    LayerNorm { dt: u32, scale: TensorName, bias: TensorName },
}

/// A normalization of vectors of width `d`.
#[derive(Clone, Copy, PartialEq, Eq, Structural, Debug)]
pub struct Normalization {
    pub d: usize,
    pub epsilon: u32,
    pub items: NormType,
}

/// A vector that is added to a product.
#[derive(Clone, Copy, PartialEq, Eq, Structural, Debug)]
pub struct Bias {
    pub dt: u32,
    pub item: TensorName,
}

/// A product with a matrix of the shape `[rows, columns]`, and a bias if there is one.
#[derive(Clone, Copy, PartialEq, Eq, Structural, Debug)]
pub struct Linear {
    pub dt: u32,
    pub rows: usize,
    pub columns: usize,
    pub weight: TensorName,
    pub bias: Option<Bias>,
}

/// Rotations by position.
#[derive(Clone, Copy, PartialEq, Eq, Structural, Debug)]
pub struct RoPE {
    pub nctx: usize,
    pub sin: TensorName,
    pub cos: TensorName,
}

/// An attention layer.
#[derive(Clone, Copy, PartialEq, Eq, Structural, Debug)]
pub struct Attention {
    pub nh: usize,
    pub nkvh: usize,
    pub qkv: Linear,
    pub rope: Option<RoPE>,
    pub output: Linear,
}

/// What stands between the two products of a feed forward layer.
#[derive(Clone, Copy, PartialEq, Eq, Structural, Debug)]
pub enum Activation {
    SwiGLU,
    GeLU,
}

/// A feed forward layer.
#[derive(Clone, Copy, PartialEq, Eq, Structural, Debug)]
pub struct Mlp {
    pub up: Linear,
    pub act: Activation,
    pub down: Linear,
}

/// A block of a model.
#[derive(Clone, Copy, PartialEq, Eq, Structural, Debug)]
pub struct TransformerBlk {
    pub attn_norm: Normalization,
    pub attn: Attention,
    pub ffn_norm: Normalization,
    pub ffn: Mlp,
}

/// A model.
pub struct LLaMA {
    pub embedding: Embedding,
    pub blks: Vec<TransformerBlk>,
    pub out_norm: Normalization,
    pub lm_head: Linear,
}

/// The normalization with one of the scales of a model.
pub open spec fn norm_of(meta: ModelMeta, scale: TensorName) -> Normalization {
    Normalization {
        d: meta.d,
        epsilon: meta.epsilon,
        items: NormType::RmsNorm { dt: meta.dt_norm, scale },
    }
}

/// The product with one of the matrices of a model, without a bias.
pub open spec fn linear_of(
    meta: ModelMeta,
    rows: int,
    columns: int,
    weight: TensorName,
) -> Linear {
    Linear {
        dt: meta.dt_linear,
        rows: rows as usize,
        columns: columns as usize,
        weight,
        bias: None,
    }
}

/// Block `iblk` of a model.
pub open spec fn blk_of(meta: ModelMeta, iblk: usize) -> TransformerBlk {
    TransformerBlk {
        attn_norm: norm_of(meta, TensorName::Blk(iblk, Part::AttnNorm)),
        attn: Attention {
            nh: meta.nh,
            nkvh: meta.nkvh,
            qkv: Linear {
                bias: match meta.dt_bias {
                    Some(dt) => Some(Bias { dt, item: TensorName::Blk(iblk, Part::AttnQkvBias) }),
                    None => None,
                },
                ..linear_of(
                    meta,
                    (meta.nh + meta.nkvh + meta.nkvh) * meta.dh,
                    meta.d as int,
                    TensorName::Blk(iblk, Part::AttnQkv),
                )
            },
            rope: Some(
                RoPE { nctx: meta.nctx, sin: TensorName::SinTable, cos: TensorName::CosTable },
            ),
            output: linear_of(
                meta,
                meta.d as int,
                meta.nh * meta.dh,
                TensorName::Blk(iblk, Part::AttnOutput),
            ),
        },
        ffn_norm: norm_of(meta, TensorName::Blk(iblk, Part::FfnNorm)),
        ffn: Mlp {
            up: linear_of(
                meta,
                meta.di * 2,
                meta.d as int,
                TensorName::Blk(iblk, Part::FfnGateUp),
            ),
            act: Activation::SwiGLU,
            down: linear_of(
                meta,
                meta.d as int,
                meta.di as int,
                TensorName::Blk(iblk, Part::FfnDown),
            ),
        },
    }
}

/// The dimensions of the blocks can be counted.
pub open spec fn blks_fit(meta: ModelMeta) -> bool {
    meta.nblk > 0 ==> {
        &&& meta.nh + meta.nkvh + meta.nkvh <= usize::MAX
        &&& (meta.nh + meta.nkvh + meta.nkvh) * meta.dh <= usize::MAX
        &&& meta.nh * meta.dh <= usize::MAX
        &&& meta.di * 2 <= usize::MAX
    }
}

/// The tensors of block `iblk` that the files lack, of which the first in the order of use is
/// given.
pub open spec fn missing_part(
    tensors: Map<Seq<char>, u32>,
    bias: bool,
    iblk: usize,
) -> Option<Part> {
    let known = |part: Part| tensors.contains_key(tensor_name(TensorName::Blk(iblk, part)));
    if !known(Part::AttnNorm) {
        Some(Part::AttnNorm)
    } else if !known(Part::AttnQkv) {
        Some(Part::AttnQkv)
    } else if bias && !known(Part::AttnQkvBias) {
        Some(Part::AttnQkvBias)
    } else if !known(Part::AttnOutput) {
        Some(Part::AttnOutput)
    } else if !known(Part::FfnNorm) {
        Some(Part::FfnNorm)
    } else if !known(Part::FfnGateUp) {
        Some(Part::FfnGateUp)
    } else if !known(Part::FfnDown) {
        Some(Part::FfnDown)
    } else {
        None
    }
}

/// The first tensor of the first `n` blocks that the files lack.
pub open spec fn missing_blk(tensors: Map<Seq<char>, u32>, bias: bool, n: nat) -> Option<TensorName>
    decreases n,
{
    if n == 0 {
        None
    } else {
        match missing_blk(tensors, bias, (n - 1) as nat) {
            Some(name) => Some(name),
            None => match missing_part(tensors, bias, (n - 1) as usize) {
                Some(part) => Some(TensorName::Blk((n - 1) as usize, part)),
                None => None,
            },
        }
    }
}

/// The entries of a table for all positions and half the width of a head fit into memory,
/// and the positions follow each other without gaps.
pub open spec fn table_error(nctx: usize, dh: usize) -> Option<ModelError> {
    if nctx * dh > usize::MAX || !tensor::dense_fits(seq![nctx, (dh / 2) as usize], 4) {
        Some(ModelError::TooLarge)
    } else if (nctx * dh) / 2 != nctx * (dh / 2) {
        Some(ModelError::OddHeads)
    } else {
        None
    }
}

/// The first reason why a model cannot be read from its files.
pub open spec fn init_error(c: Contents) -> Option<ModelError> {
    let meta = meta_of(c);
    first(
        meta_error(c),
        first(
            table_error(meta.nctx, meta.dh),
            if !blks_fit(meta) {
                Some(ModelError::TooLarge)
            } else {
                match missing_blk(c.tensors, meta.dt_bias is Some, meta.nblk as nat) {
                    Some(name) => Some(ModelError::NoTensor(name)),
                    None => None,
                }
            },
        ),
    )
}

/// The tensor that the last product of a model uses: its own where the files have one, else
/// that of the embedding.
pub open spec fn head_weight(tensors: Map<Seq<char>, u32>) -> TensorName {
    if tensors.contains_key(tensor_name(TensorName::Output)) {
        TensorName::Output
    } else {
        TensorName::TokenEmbd
    }
}

/// The table of the sines, or of the cosines, of all rotations: a row for each position, and
/// a column for each pair of coordinates of a head.
pub fn build_sin_cos(nctx: usize, dh: usize) -> (table: Result<Tensor<usize>, ModelError>)
    ensures
        match table {
            Ok(table) => {
                &&& table_error(nctx, dh) is None
                &&& table.is_dense(seq![nctx, (dh / 2) as usize], 4)
                &&& table.item == tensor::dense_bytes(seq![nctx, (dh / 2) as usize], 4)
            },
            Err(e) => table_error(nctx, dh) == Some(e),
        },
{
    let shape: Vec<usize> = vec![nctx, dh / 2];
    assert(shape@ =~= seq![nctx, (dh / 2) as usize]);
    proof {
        assert(nctx * dh <= u64::MAX * u64::MAX) by (nonlinear_arith)
            requires
                nctx <= u64::MAX,
                dh <= u64::MAX,
        ;
        assert(nctx * (dh / 2) <= nctx * dh) by (nonlinear_arith);
    }
    let all: u128 = nctx as u128 * dh as u128;
    if all > usize::MAX as u128 || !tensor::fits(4, &shape) {
        return Err(ModelError::TooLarge);
    }
    if all as usize / 2 != nctx * (dh / 2) {
        return Err(ModelError::OddHeads);
    }
    Ok(Tensor::new(4, shape))
}

/// Where the entry for pair `i` at position `pos` stands in a table.
pub fn sin_cos_index(pos: usize, i: usize, dh: usize) -> (at: usize)
    requires
        pos * dh <= usize::MAX,
        (pos * dh) / 2 + i <= usize::MAX,
    ensures
        at == (pos * dh) / 2 + i,
{
    pos * dh / 2 + i
}

fn norm(meta: &ModelMeta, scale: TensorName) -> (norm: Normalization)
    ensures
        norm == norm_of(*meta, scale),
{
    Normalization {
        d: meta.d,
        epsilon: meta.epsilon,
        items: NormType::RmsNorm { dt: meta.dt_norm, scale },
    }
}

fn linear(meta: &ModelMeta, rows: usize, columns: usize, weight: TensorName) -> (linear: Linear)
    ensures
        linear == linear_of(*meta, rows as int, columns as int, weight),
{
    Linear { dt: meta.dt_linear, rows, columns, weight, bias: None }
}

fn blk(meta: &ModelMeta, iblk: usize) -> (blk: TransformerBlk)
    requires
        iblk < meta.nblk,
        blks_fit(*meta),
    ensures
        blk == blk_of(*meta, iblk),
{
    let mut qkv = linear(
        meta,
        (meta.nh + meta.nkvh + meta.nkvh) * meta.dh,
        meta.d,
        TensorName::Blk(iblk, Part::AttnQkv),
    );
    qkv.bias = match meta.dt_bias {
        Some(dt) => Some(Bias { dt, item: TensorName::Blk(iblk, Part::AttnQkvBias) }),
        None => None,
    };
    TransformerBlk {
        attn_norm: norm(meta, TensorName::Blk(iblk, Part::AttnNorm)),
        attn: Attention {
            nh: meta.nh,
            nkvh: meta.nkvh,
            qkv,
            rope: Some(
                RoPE { nctx: meta.nctx, sin: TensorName::SinTable, cos: TensorName::CosTable },
            ),
            output: linear(
                meta,
                meta.d,
                meta.nh * meta.dh,
                TensorName::Blk(iblk, Part::AttnOutput),
            ),
        },
        ffn_norm: norm(meta, TensorName::Blk(iblk, Part::FfnNorm)),
        ffn: Mlp {
            up: linear(meta, meta.di * 2, meta.d, TensorName::Blk(iblk, Part::FfnGateUp)),
            act: Activation::SwiGLU,
            down: linear(meta, meta.d, meta.di, TensorName::Blk(iblk, Part::FfnDown)),
        },
    }
}

fn has_tensor(gguf: &GGufModel<'_>, name: TensorName) -> (has: bool)
    ensures
        has == contents(gguf).tensors.contains_key(tensor_name(name)),
{
    gguf.find_tensor(name.name().as_str()).is_some()
}

fn lacks(gguf: &GGufModel<'_>, bias: bool, iblk: usize) -> (part: Option<Part>)
    ensures
        part == missing_part(contents(gguf).tensors, bias, iblk),
{
    if !has_tensor(gguf, TensorName::Blk(iblk, Part::AttnNorm)) {
        Some(Part::AttnNorm)
    } else if !has_tensor(gguf, TensorName::Blk(iblk, Part::AttnQkv)) {
        Some(Part::AttnQkv)
    } else if bias && !has_tensor(gguf, TensorName::Blk(iblk, Part::AttnQkvBias)) {
        Some(Part::AttnQkvBias)
    } else if !has_tensor(gguf, TensorName::Blk(iblk, Part::AttnOutput)) {
        Some(Part::AttnOutput)
    } else if !has_tensor(gguf, TensorName::Blk(iblk, Part::FfnNorm)) {
        Some(Part::FfnNorm)
    } else if !has_tensor(gguf, TensorName::Blk(iblk, Part::FfnGateUp)) {
        Some(Part::FfnGateUp)
    } else if !has_tensor(gguf, TensorName::Blk(iblk, Part::FfnDown)) {
        Some(Part::FfnDown)
    } else {
        None
    }
}

/// The model of these dimensions, with `head` for the weight of its last product.
pub open spec fn is_model(llama: LLaMA, meta: ModelMeta, head: TensorName) -> bool {
    &&& llama.embedding == (Embedding {
        dt: meta.dt_embd,
        d: meta.d,
        row: meta.nvoc,
        wte: TensorName::TokenEmbd,
    })
    &&& llama.blks@.len() == meta.nblk
    &&& forall|i: int|
        0 <= i < meta.nblk ==> #[trigger] llama.blks@[i] == blk_of(meta, i as usize)
    &&& llama.out_norm == norm_of(meta, TensorName::OutputNorm)
    &&& llama.lm_head == linear_of(meta, meta.nvoc as int, meta.d as int, head)
}

/// Puts the model of these dimensions together.
pub fn build(meta: ModelMeta, head: TensorName) -> (llama: LLaMA)
    requires
        blks_fit(meta),
    ensures
        is_model(llama, meta, head),
{
    let mut blks: Vec<TransformerBlk> = Vec::new();
    let mut i: usize = 0;
    while i < meta.nblk
        invariant
            i <= meta.nblk,
            blks_fit(meta),
            blks.len() == i,
            forall|j: int| 0 <= j < i ==> #[trigger] blks@[j] == blk_of(meta, j as usize),
        decreases meta.nblk - i,
    {
        blks.push(blk(&meta, i));
        i = i + 1;
    }
    LLaMA {
        embedding: Embedding {
            dt: meta.dt_embd,
            d: meta.d,
            row: meta.nvoc,
            wte: TensorName::TokenEmbd,
        },
        blks,
        out_norm: norm(&meta, TensorName::OutputNorm),
        lm_head: linear(&meta, meta.nvoc, meta.d, head),
    }
}

/// Whether the dimensions of the blocks can be counted.
fn check_blks(meta: &ModelMeta) -> (fit: bool)
    ensures
        fit == blks_fit(*meta),
{
    if meta.nblk == 0 {
        return true;
    }
    proof {
        assert((meta.nh + meta.nkvh + meta.nkvh) * meta.dh <= 3 * u64::MAX * u64::MAX)
            by (nonlinear_arith)
            requires
                meta.nh <= u64::MAX,
                meta.nkvh <= u64::MAX,
                meta.dh <= u64::MAX,
        ;
        assert(meta.nh * meta.dh <= u64::MAX * u64::MAX) by (nonlinear_arith)
            requires
                meta.nh <= u64::MAX,
                meta.dh <= u64::MAX,
        ;
    }
    let heads: u128 = meta.nh as u128 + meta.nkvh as u128 + meta.nkvh as u128;
    let max: u128 = usize::MAX as u128;
    if heads > max {
        return false;
    }
    proof {
        assert(heads * meta.dh <= u64::MAX * u64::MAX) by (nonlinear_arith)
            requires
                heads <= u64::MAX,
                meta.dh <= u64::MAX,
        ;
    }
    heads * meta.dh as u128 <= max && meta.nh as u128 * meta.dh as u128 <= max && meta.di as u128
        * 2 <= max
}

/// Reads a model from its files.
pub fn init(gguf: &GGufModel<'_>) -> (read: Result<LLaMA, ModelError>)
    ensures
        match read {
            Ok(llama) => {
                &&& init_error(contents(gguf)) is None
                &&& is_model(
                    llama,
                    meta_of(contents(gguf)),
                    head_weight(contents(gguf).tensors),
                )
            },
            Err(e) => init_error(contents(gguf)) == Some(e),
        },
{
    let meta = read_meta(gguf)?;
    match build_sin_cos(meta.nctx, meta.dh) {
        Ok(_) => {},
        Err(e) => {
            return Err(e);
        },
    }
    if !check_blks(&meta) {
        return Err(ModelError::TooLarge);
    }
    let bias = meta.dt_bias.is_some();
    let ghost tensors = contents(gguf).tensors;
    let mut i: usize = 0;
    while i < meta.nblk
        invariant
            i <= meta.nblk,
            tensors == contents(gguf).tensors,
            bias == (meta.dt_bias is Some),
            missing_blk(tensors, bias, i as nat) is None,
            meta == meta_of(contents(gguf)),
            meta_error(contents(gguf)) is None,
            table_error(meta.nctx, meta.dh) is None,
            blks_fit(meta),
        decreases meta.nblk - i,
    {
        match lacks(gguf, bias, i) {
            Some(part) => {
                let name = TensorName::Blk(i, part);
                proof {
                    lemma_missing_stays(tensors, bias, i as nat + 1, meta.nblk as nat);
                }
                return Err(ModelError::NoTensor(name));
            },
            None => {},
        }
        i = i + 1;
    }
    let head = if has_tensor(gguf, TensorName::Output) {
        TensorName::Output
    } else {
        TensorName::TokenEmbd
    };
    Ok(build(meta, head))
}

proof fn lemma_missing_stays(tensors: Map<Seq<char>, u32>, bias: bool, a: nat, b: nat)
    requires
        a <= b,
        missing_blk(tensors, bias, a) is Some,
    ensures
        missing_blk(tensors, bias, b) == missing_blk(tensors, bias, a),
    decreases b - a,
{
    if a < b {
        lemma_missing_stays(tensors, bias, a, (b - 1) as nat);
    }
}

/// The shape of the key-value cache of a whole conversation.
pub open spec fn kv_shape(c: Contents) -> Seq<usize> {
    seq![
        c.number(MetaKey::ContextLength)->Ok_0,
        c.number(MetaKey::BlockCount)->Ok_0,
        2,
        c.nkvh()->Ok_0,
        c.dh()->Ok_0,
    ]
}

/// The element type of the key-value cache: that of the embedding.
pub open spec fn kv_type(c: Contents) -> Result<u32, ModelError> {
    match reading_type(c.tensors, TensorName::TokenEmbd) {
        Err(e) => Err(e),
        Ok(code) => if type_sizes(code).0 == 1 {
            Ok(code)
        } else {
            Err(ModelError::Type(code))
        },
    }
}

/// The first reason why the files do not say what the key-value cache looks like.
pub open spec fn kv_error(c: Contents) -> Option<ModelError> {
    first(
        error_of(kv_type(c)),
        first(
            error_of(reading(c.keys, c.strs, MetaKey::Architecture, seq![])),
            first(
                error_of(c.number(MetaKey::BlockCount)),
                first(
                    error_of(c.number(MetaKey::ContextLength)),
                    first(
                        error_of(c.number(MetaKey::EmbeddingLength)),
                        first(
                            error_of(c.number(MetaKey::HeadCount)),
                            first(
                                error_of(c.nkvh()),
                                first(
                                    error_of(c.dh()),
                                    if tensor::dense_fits(
                                        kv_shape(c),
                                        type_sizes(kv_type(c)->Ok_0).1 as usize,
                                    ) {
                                        None
                                    } else {
                                        Some(ModelError::TooLarge)
                                    },
                                ),
                            ),
                        ),
                    ),
                ),
            ),
        ),
    )
}

/// The key-value cache of a whole conversation, with the shape `[nctx, nblk, 2, nkvh, dh]`
/// and elements like those of the embedding. Element types that come in blocks have no
/// single elements to cache.
pub fn kv_cache(gguf: &GGufModel<'_>) -> (cache: Result<Tensor<usize>, ModelError>)
    ensures
        match cache {
            Ok(cache) => {
                let elem = type_sizes(kv_type(contents(gguf))->Ok_0).1 as usize;
                &&& kv_error(contents(gguf)) is None
                &&& cache.is_dense(kv_shape(contents(gguf)), elem)
                &&& cache.item == tensor::dense_bytes(kv_shape(contents(gguf)), elem)
            },
            Err(e) => kv_error(contents(gguf)) == Some(e),
        },
{
    let code = read_type(gguf, TensorName::TokenEmbd)?;
    let name = TensorName::TokenEmbd.name();
    let (block, elem) = match gguf.find_tensor(name.as_str()) {
        Some(file) => match tensor_size(file, name.as_str()) {
            Some(sizes) => sizes,
            None => (1, 0),
        },
        None => (1, 0),
    };
    if block != 1 {
        return Err(ModelError::Type(code));
    }
    let arch = read_arch(gguf)?;
    let nblk = read_int(gguf, arch, MetaKey::BlockCount)?;
    let nctx = read_int(gguf, arch, MetaKey::ContextLength)?;
    let d = read_int(gguf, arch, MetaKey::EmbeddingLength)?;
    let nh = read_int(gguf, arch, MetaKey::HeadCount)?;
    let nkvh = read_nkvh(gguf, arch, nh)?;
    let dh = read_dh(gguf, arch, d, nh)?;
    let shape: Vec<usize> = vec![nctx, nblk, 2, nkvh, dh];
    assert(shape@ =~= kv_shape(contents(gguf)));
    if !tensor::fits(elem as usize, &shape) {
        return Err(ModelError::TooLarge);
    }
    Ok(Tensor::new(elem as usize, shape))
}

/// The entries of a table fill it: each position and pair has an entry of its own, and every
/// entry is one of them.
pub proof fn law_tables_have_no_gaps(nctx: usize, dh: usize, pos: int, i: int)
    requires
        table_error(nctx, dh) is None,
        0 <= pos < nctx,
        0 <= i < dh / 2,
    ensures
        (pos * dh) / 2 + i == pos * (dh / 2) + i,
        0 <= pos * (dh / 2) + i < nctx * (dh / 2),
        (pos * (dh / 2) + i) / (dh / 2) as int == pos,
        (pos * (dh / 2) + i) % (dh / 2) as int == i,
{
    let half = (dh / 2) as int;
    assert((nctx * dh) / 2 == nctx * half);
    if dh % 2 == 1 && nctx >= 2 {
        assert(dh == 2 * half + 1);
        assert(nctx * dh == 2 * (nctx * half) + nctx) by (nonlinear_arith)
            requires
                dh == 2 * half + 1,
        ;
        assert(false);
    }
    if dh % 2 == 0 {
        assert(pos * dh == 2 * (pos * half)) by (nonlinear_arith)
            requires
                dh == 2 * half,
        ;
    } else {
        assert(pos == 0);
        assert(pos * dh == 0 && pos * half == 0);
    }
    assert(pos * half + i < nctx * half) by (nonlinear_arith)
        requires
            0 <= pos < nctx,
            0 <= i < half,
    ;
    assert(pos * half >= 0) by (nonlinear_arith)
        requires
            pos >= 0,
            half >= 0,
    ;
    vstd::arithmetic::div_mod::lemma_fundamental_div_mod_converse(pos * half + i, half, pos, i);
}

/// The model and its cache agree on their dimensions.
pub proof fn law_cache_fits_the_model(c: Contents)
    requires
        init_error(c) is None,
        kv_error(c) is None,
    ensures
        kv_shape(c) == seq![
            meta_of(c).nctx,
            meta_of(c).nblk,
            2,
            meta_of(c).nkvh,
            meta_of(c).dh,
        ],
        kv_type(c) == Ok::<u32, ModelError>(meta_of(c).dt_embd),
{
    assert(kv_shape(c) =~= seq![
        meta_of(c).nctx,
        meta_of(c).nblk,
        2,
        meta_of(c).nkvh,
        meta_of(c).dh,
    ]);
}

/// A model whose files do not speak of heads of keys and values has as many as of queries, and
/// one whose files do not speak of their width shares the embedding among them.
pub proof fn law_heads_have_defaults(c: Contents)
    requires
        meta_error(c) is None,
    ensures
        c.number(MetaKey::HeadCountKv) == Err::<usize, ModelError>(
            ModelError::Missing(MetaKey::HeadCountKv),
        ) ==> meta_of(c).nkvh == meta_of(c).nh,
        c.number(MetaKey::RopeDimensionCount) == Err::<usize, ModelError>(
            ModelError::Missing(MetaKey::RopeDimensionCount),
        ) ==> meta_of(c).nh > 0 && meta_of(c).dh == meta_of(c).d / meta_of(c).nh,
{
}

/// A model that was read has all the tensors that its blocks name.
pub proof fn law_blocks_have_their_tensors(c: Contents, iblk: usize, part: Part)
    requires
        init_error(c) is None,
        iblk < meta_of(c).nblk,
        part is AttnQkvBias ==> meta_of(c).dt_bias is Some,
    ensures
        c.tensors.contains_key(tensor_name(TensorName::Blk(iblk, part))),
{
    let meta = meta_of(c);
    lemma_none_missing(c.tensors, meta.dt_bias is Some, iblk as nat, meta.nblk as nat);
}

proof fn lemma_none_missing(tensors: Map<Seq<char>, u32>, bias: bool, iblk: nat, n: nat)
    requires
        missing_blk(tensors, bias, n) is None,
        iblk < n <= usize::MAX,
    ensures
        missing_part(tensors, bias, iblk as usize) is None,
    decreases n,
{
    if iblk + 1 < n {
        lemma_none_missing(tensors, bias, iblk, (n - 1) as nat);
    }
}

proof fn lemma_part_names(a: Part, b: Part)
    requires
        part_name(a) == part_name(b),
    ensures
        a == b,
{
    reveal_strlit(".attn_norm.weight");
    reveal_strlit(".attn_qkv.weight");
    reveal_strlit(".attn_qkv.bias");
    reveal_strlit(".attn_output.weight");
    reveal_strlit(".ffn_norm.weight");
    reveal_strlit(".ffn_gate_up.weight");
    reveal_strlit(".ffn_down.weight");
    assert(".attn_norm.weight"@.len() == 17);
    assert(".attn_qkv.weight"@.len() == 16);
    assert(".attn_qkv.bias"@.len() == 14);
    assert(".attn_output.weight"@.len() == 19);
    assert(".ffn_norm.weight"@.len() == 16);
    assert(".ffn_gate_up.weight"@.len() == 19);
    assert(".ffn_down.weight"@.len() == 16);
    assert(".attn_qkv.weight"@[1] == 'a');
    assert(".attn_output.weight"@[1] == 'a');
    assert(".ffn_norm.weight"@[1] == 'f');
    assert(".ffn_gate_up.weight"@[1] == 'f');
    assert(".ffn_norm.weight"@[5] == 'n');
    assert(".ffn_down.weight"@[1] == 'f');
    assert(".ffn_down.weight"@[5] == 'd');
}

proof fn lemma_part_begins_with_dot(part: Part)
    ensures
        part_name(part).len() > 0,
        part_name(part)[0] == '.',
{
    reveal_strlit(".attn_norm.weight");
    reveal_strlit(".attn_qkv.weight");
    reveal_strlit(".attn_qkv.bias");
    reveal_strlit(".attn_output.weight");
    reveal_strlit(".ffn_norm.weight");
    reveal_strlit(".ffn_gate_up.weight");
    reveal_strlit(".ffn_down.weight");
}

proof fn lemma_blk_names(i: usize, p: Part, j: usize, q: Part)
    requires
        tensor_name(TensorName::Blk(i, p)) == tensor_name(TensorName::Blk(j, q)),
    ensures
        i == j,
        p == q,
{
    let a = text::decimal(i as nat);
    let b = text::decimal(j as nat);
    let s = tensor_name(TensorName::Blk(i, p));
    let t = tensor_name(TensorName::Blk(j, q));
    let n = "blk."@.len() as int;
    text::lemma_decimal_digits(i as nat);
    text::lemma_decimal_digits(j as nat);
    lemma_part_begins_with_dot(p);
    lemma_part_begins_with_dot(q);
    assert(s[n + a.len()] == '.');
    assert(t[n + b.len()] == '.');
    if a.len() < b.len() {
        assert(t[n + a.len()] == b[a.len() as int]);
        assert(false);
    }
    if b.len() < a.len() {
        assert(s[n + b.len()] == a[b.len() as int]);
        assert(false);
    }
    assert(s.subrange(n, n + a.len()) =~= a);
    assert(t.subrange(n, n + b.len()) =~= b);
    assert(s.skip(n + a.len()) =~= part_name(p));
    assert(t.skip(n + b.len()) =~= part_name(q));
    text::lemma_decimal_injective(i as nat, j as nat);
    lemma_part_names(p, q);
}

/// No two tensors of a model have the same name.
pub proof fn law_tensors_have_their_own_names(a: TensorName, b: TensorName)
    requires
        tensor_name(a) == tensor_name(b),
    ensures
        a == b,
{
    reveal_strlit("token_embd.weight");
    reveal_strlit("output_norm.weight");
    reveal_strlit("output.weight");
    reveal_strlit("blk.");
    reveal_strlit("sin_table");
    reveal_strlit("cos_table");
    assert("token_embd.weight"@[0] == 't');
    assert("output_norm.weight"@[0] == 'o' && "output_norm.weight"@.len() == 18);
    assert("output.weight"@[0] == 'o' && "output.weight"@.len() == 13);
    assert("sin_table"@[0] == 's');
    assert("cos_table"@[0] == 'c');
    assert("blk."@[0] == 'b' && "blk."@.len() == 4);
    assert(a matches TensorName::Blk(_, _) ==> tensor_name(a)[0] == 'b');
    assert(b matches TensorName::Blk(_, _) ==> tensor_name(b)[0] == 'b');
    match (a, b) {
        (TensorName::Blk(i, p), TensorName::Blk(j, q)) => {
            lemma_blk_names(i, p, j, q);
        },
        _ => {},
    }
}

/// More files behind those of a model add to it: whatever was read before is read the same.
pub proof fn law_more_files_only_add(
    gguf: &GGufModel<'_>,
    more: &GGufModel<'_>,
    key: MetaKey,
    arch: Seq<char>,
    name: TensorName,
)
    requires
        gguf.files@.is_prefix_of(more.files@),
    ensures
        contents(gguf).keys.contains(key_name(key, arch)) ==> {
            let (a, b) = (contents(gguf), contents(more));
            &&& reading(a.keys, a.strs, key, arch) == reading(b.keys, b.strs, key, arch)
            &&& reading(a.keys, a.usizes, key, arch) == reading(b.keys, b.usizes, key, arch)
            &&& reading(a.keys, a.f32s, key, arch) == reading(b.keys, b.f32s, key, arch)
            &&& reading(a.keys, a.str_arrs, key, arch) == reading(b.keys, b.str_arrs, key, arch)
        },
        contents(gguf).tensors.contains_key(tensor_name(name)) ==> reading_type(
            contents(gguf).tensors,
            name,
        ) == reading_type(contents(more).tensors, name),
{
    lemma_holders_stay(gguf.files@, more.files@, key_name(key, arch), tensor_name(name));
}

proof fn lemma_holders_stay(
    some: Seq<GGuf<'_>>,
    all: Seq<GGuf<'_>>,
    key: Seq<char>,
    name: Seq<char>,
)
    requires
        some.is_prefix_of(all),
    ensures
        meta_holder(some, key) < some.len() ==> meta_holder(all, key) == meta_holder(some, key)
            && all[meta_holder(all, key) as int] == some[meta_holder(some, key) as int],
        tensor_holder(some, name) < some.len() ==> tensor_holder(all, name) == tensor_holder(
            some,
            name,
        ) && all[tensor_holder(all, name) as int] == some[tensor_holder(some, name) as int],
    decreases some.len(),
{
    if some.len() > 0 {
        assert(some[0] == all[0]);
        assert(some.drop_first().is_prefix_of(all.drop_first())) by {
            assert forall|i: int| 0 <= i < some.len() implies some[i] == all[i] by {
                assert(all.take(some.len() as int)[i] == some[i]);
            }
        }
        lemma_holders_stay(some.drop_first(), all.drop_first(), key, name);
    }
}

/// Every block of a model is wired by name: its norms, products and rotations use the tensors
/// that are called after the block and what they are for, and the tables of sines and cosines.
pub proof fn law_blocks_are_wired_by_name(llama: LLaMA, meta: ModelMeta, head: TensorName, i: int)
    requires
        is_model(llama, meta, head),
        0 <= i < meta.nblk,
    ensures
        llama.blks@.len() == meta.nblk,
        ({
            let blk = llama.blks@[i];
            let number = "blk."@ + text::decimal(i as nat);
            &&& blk.attn.rope matches Some(rope) && rope.nctx == meta.nctx && tensor_name(rope.sin)
                == "sin_table"@ && tensor_name(rope.cos) == "cos_table"@ && rope.sin
                == TensorName::SinTable && rope.cos == TensorName::CosTable
            &&& tensor_name(blk.attn.qkv.weight) == number + ".attn_qkv.weight"@
            &&& tensor_name(blk.attn.output.weight) == number + ".attn_output.weight"@
            &&& tensor_name(blk.ffn.up.weight) == number + ".ffn_gate_up.weight"@
            &&& tensor_name(blk.ffn.down.weight) == number + ".ffn_down.weight"@
            &&& blk.attn_norm.items matches NormType::RmsNorm { dt, scale } && dt == meta.dt_norm
                && tensor_name(scale) == number + ".attn_norm.weight"@
            &&& blk.ffn_norm.items matches NormType::RmsNorm { dt, scale } && dt == meta.dt_norm
                && tensor_name(scale) == number + ".ffn_norm.weight"@
            &&& meta.dt_bias is None ==> blk.attn.qkv.bias is None
            &&& meta.dt_bias matches Some(dt) ==> (blk.attn.qkv.bias matches Some(bias) && bias.dt
                == dt && tensor_name(bias.item) == number + ".attn_qkv.bias"@)
            &&& blk.attn.output.bias is None
            &&& blk.ffn.up.bias is None
            &&& blk.ffn.down.bias is None
            &&& blk.ffn.act == Activation::SwiGLU
        }),
{
    assert(llama.blks@[i] == blk_of(meta, i as usize));
}

/// The products of a block fit each other: what the queries, keys and values of all heads take,
/// what comes out of them, and the two halves of the feed forward layer.
pub proof fn law_blocks_have_their_dimensions(
    llama: LLaMA,
    meta: ModelMeta,
    head: TensorName,
    i: int,
)
    requires
        is_model(llama, meta, head),
        0 <= i < meta.nblk,
        (meta.nh + meta.nkvh + meta.nkvh) * meta.dh <= usize::MAX,
        meta.nh * meta.dh <= usize::MAX,
        meta.di * 2 <= usize::MAX,
    ensures
        ({
            let blk = llama.blks@[i];
            &&& blk.attn.nh == meta.nh
            &&& blk.attn.nkvh == meta.nkvh
            &&& blk.attn.qkv.rows == meta.nh * meta.dh + 2 * (meta.nkvh * meta.dh)
            &&& blk.attn.qkv.columns == meta.d
            &&& blk.attn.output.rows == meta.d
            &&& blk.attn.output.columns == meta.nh * meta.dh
            &&& blk.ffn.up.rows == meta.di + meta.di
            &&& blk.ffn.up.columns == meta.d
            &&& blk.ffn.down.rows == meta.d
            &&& blk.ffn.down.columns == meta.di
            &&& blk.attn.qkv.dt == meta.dt_linear
            &&& blk.attn.output.dt == meta.dt_linear
            &&& blk.ffn.up.dt == meta.dt_linear
            &&& blk.ffn.down.dt == meta.dt_linear
            &&& blk.attn_norm.d == meta.d
            &&& blk.attn_norm.epsilon == meta.epsilon
            &&& blk.ffn_norm.d == meta.d
            &&& blk.ffn_norm.epsilon == meta.epsilon
        }),
{
    assert(llama.blks@[i] == blk_of(meta, i as usize));
    assert((meta.nh + meta.nkvh + meta.nkvh) * meta.dh == meta.nh * meta.dh + 2 * (meta.nkvh
        * meta.dh)) by (nonlinear_arith);
    assert((meta.nh + meta.nkvh + meta.nkvh) * meta.dh >= 0) by (nonlinear_arith);
    assert(meta.nh * meta.dh >= 0) by (nonlinear_arith);
}

/// A model begins with the table of embeddings and ends with a norm and a product that gives a
/// number for each token of the vocabulary.
pub proof fn law_models_begin_and_end(llama: LLaMA, meta: ModelMeta, head: TensorName)
    requires
        is_model(llama, meta, head),
    ensures
        llama.embedding.dt == meta.dt_embd,
        llama.embedding.d == meta.d,
        llama.embedding.row == meta.nvoc,
        tensor_name(llama.embedding.wte) == "token_embd.weight"@,
        llama.out_norm.d == meta.d,
        llama.out_norm.epsilon == meta.epsilon,
        llama.out_norm.items matches NormType::RmsNorm { dt, scale } && dt == meta.dt_norm
            && tensor_name(scale) == "output_norm.weight"@,
        llama.lm_head.dt == meta.dt_linear,
        llama.lm_head.rows == meta.nvoc,
        llama.lm_head.columns == meta.d,
        llama.lm_head.weight == head,
        llama.lm_head.bias is None,
{
}

/// The last product uses the tensor that is called after the output where there is one, and that
/// of the embeddings where there is none.
pub proof fn law_the_output_has_its_own_weight(tensors: Map<Seq<char>, u32>)
    ensures
        tensors.contains_key("output.weight"@) ==> tensor_name(head_weight(tensors))
            == "output.weight"@,
        !tensors.contains_key("output.weight"@) ==> tensor_name(head_weight(tensors))
            == "token_embd.weight"@,
{
}

proof fn lemma_archs_differ()
    ensures
        "llama"@ != "qwen2"@,
{
    reveal_strlit("llama");
    reveal_strlit("qwen2");
    assert("llama"@[0] == 'l');
    assert("qwen2"@[0] == 'q');
}

/// The dimensions of a model stand in its files: each under the key that is called after it, and
/// the type of each kind of tensor with the first of them.
pub proof fn law_dimensions_stand_in_the_files(c: Contents)
    requires
        meta_error(c) is None,
    ensures
        ({
            let arch = c.strs["general.architecture"@];
            let meta = meta_of(c);
            let there = |key: Seq<char>, value: usize|
                c.usizes.contains_key(arch + key) && c.usizes[arch + key] == value;
            &&& c.strs.contains_key("general.architecture"@)
            &&& arch == "llama"@ || arch == "qwen2"@
            &&& c.str_arrs.contains_key("tokenizer.ggml.tokens"@)
            &&& meta.nvoc == c.str_arrs["tokenizer.ggml.tokens"@]
            &&& there(".context_length"@, meta.nctx)
            &&& there(".block_count"@, meta.nblk)
            &&& there(".embedding_length"@, meta.d)
            &&& there(".attention.head_count"@, meta.nh)
            &&& there(".feed_forward_length"@, meta.di)
            &&& c.usizes.contains_key(arch + ".attention.head_count_kv"@) ==> there(
                ".attention.head_count_kv"@,
                meta.nkvh,
            )
            &&& !c.usizes.contains_key(arch + ".attention.head_count_kv"@) ==> meta.nkvh == meta.nh
                && !c.keys.contains(arch + ".attention.head_count_kv"@)
            &&& c.usizes.contains_key(arch + ".rope.dimension_count"@) ==> there(
                ".rope.dimension_count"@,
                meta.dh,
            )
            &&& !c.usizes.contains_key(arch + ".rope.dimension_count"@) ==> meta.nh > 0 && meta.dh
                == meta.d / meta.nh && !c.keys.contains(arch + ".rope.dimension_count"@)
        }),
{
}

/// The numbers of single precision of a model stand in its files, or have their defaults: one in
/// a hundred thousand, and ten thousand.
pub proof fn law_fractions_have_defaults(c: Contents)
    requires
        meta_error(c) is None,
    ensures
        ({
            let arch = c.strs["general.architecture"@];
            let meta = meta_of(c);
            let epsilon = arch + ".attention.layer_norm_rms_epsilon"@;
            let theta = arch + ".rope.freq_base"@;
            &&& c.f32s.contains_key(epsilon) ==> meta.epsilon == c.f32s[epsilon]
            &&& !c.f32s.contains_key(epsilon) ==> meta.epsilon == 0x3727_C5AC && !c.keys.contains(
                epsilon,
            )
            &&& c.f32s.contains_key(theta) ==> meta.theta == c.f32s[theta]
            &&& !c.f32s.contains_key(theta) ==> meta.theta == 0x461C_4000 && !c.keys.contains(theta)
        }),
{
}

/// The element types of a model are those of its tensors, none of which is retired; only models
/// of the second architecture have biases.
pub proof fn law_types_are_those_of_the_tensors(c: Contents)
    requires
        meta_error(c) is None,
    ensures
        ({
            let arch = c.strs["general.architecture"@];
            let meta = meta_of(c);
            let first = "blk."@ + text::decimal(0);
            let typed = |name: Seq<char>, code: u32|
                c.tensors.contains_key(name) && c.tensors[name] == code && code != 4 && code != 5
                    && !(31 <= code <= 33);
            &&& typed("token_embd.weight"@, meta.dt_embd)
            &&& typed("output_norm.weight"@, meta.dt_norm)
            &&& typed(first + ".attn_qkv.weight"@, meta.dt_linear)
            &&& arch == "llama"@ ==> meta.dt_bias is None
            &&& arch == "qwen2"@ ==> (meta.dt_bias matches Some(dt) && typed(
                first + ".attn_qkv.bias"@,
                dt,
            ))
        }),
{
    lemma_archs_differ();
}

/// A model whose files have all its dimensions and types is read: nothing is wrong with them.
pub proof fn law_complete_files_are_read(c: Contents)
    requires
        ({
            let arch = c.strs["general.architecture"@];
            let first = "blk."@ + text::decimal(0);
            let typed = |name: Seq<char>|
                c.tensors.contains_key(name) && c.tensors[name] != 4 && c.tensors[name] != 5 && !(31
                    <= c.tensors[name] <= 33);
            &&& c.strs.contains_key("general.architecture"@)
            &&& arch == "llama"@ || arch == "qwen2"@
            &&& c.str_arrs.contains_key("tokenizer.ggml.tokens"@)
            &&& c.usizes.contains_key(arch + ".context_length"@)
            &&& c.usizes.contains_key(arch + ".block_count"@)
            &&& c.usizes.contains_key(arch + ".embedding_length"@)
            &&& c.usizes.contains_key(arch + ".attention.head_count"@)
            &&& c.usizes[arch + ".attention.head_count"@] > 0
            &&& c.usizes.contains_key(arch + ".feed_forward_length"@)
            &&& c.keys.contains(arch + ".attention.head_count_kv"@) ==> c.usizes.contains_key(
                arch + ".attention.head_count_kv"@,
            )
            &&& c.keys.contains(arch + ".rope.dimension_count"@) ==> c.usizes.contains_key(
                arch + ".rope.dimension_count"@,
            )
            &&& c.keys.contains(arch + ".attention.layer_norm_rms_epsilon"@)
                ==> c.f32s.contains_key(arch + ".attention.layer_norm_rms_epsilon"@)
            &&& c.keys.contains(arch + ".rope.freq_base"@) ==> c.f32s.contains_key(
                arch + ".rope.freq_base"@,
            )
            &&& typed("token_embd.weight"@)
            &&& typed("output_norm.weight"@)
            &&& typed(first + ".attn_qkv.weight"@)
            &&& arch == "qwen2"@ ==> typed(first + ".attn_qkv.bias"@)
        }),
    ensures
        meta_error(c) is None,
{
    lemma_archs_differ();
}

/// Of several files, the first that has something under a key is the one that counts.
pub proof fn law_the_first_file_counts(gguf: &GGufModel<'_>, i: int, key: Seq<char>)
    requires
        0 <= i < gguf.files@.len(),
        meta_keys(&gguf.files@[i]).contains(key),
        forall|j: int| 0 <= j < i ==> !meta_keys(&#[trigger] gguf.files@[j]).contains(key),
    ensures
        ({
            let c = contents(gguf);
            let file = gguf.files@[i];
            &&& c.keys.contains(key)
            &&& c.strs.contains_key(key) <==> meta_strs(&file).contains_key(key)
            &&& c.strs.contains_key(key) ==> c.strs[key] == meta_strs(&file)[key]
            &&& c.usizes.contains_key(key) <==> meta_usizes(&file).contains_key(key)
            &&& c.usizes.contains_key(key) ==> c.usizes[key] == meta_usizes(&file)[key]
            &&& c.f32s.contains_key(key) <==> meta_f32s(&file).contains_key(key)
            &&& c.f32s.contains_key(key) ==> c.f32s[key] == meta_f32s(&file)[key]
            &&& c.str_arrs.contains_key(key) <==> meta_str_arrs(&file).contains_key(key)
            &&& c.str_arrs.contains_key(key) ==> c.str_arrs[key] == meta_str_arrs(&file)[key]
        }),
{
    lemma_meta_holder_is_first(gguf.files@, i, key);
}

proof fn lemma_meta_holder_is_first(files: Seq<GGuf<'_>>, i: int, key: Seq<char>)
    requires
        0 <= i <= files.len(),
        i < files.len() ==> meta_keys(&files[i]).contains(key),
        forall|j: int| 0 <= j < i ==> !meta_keys(&#[trigger] files[j]).contains(key),
    ensures
        meta_holder(files, key) == i,
    decreases files.len(),
{
    if i > 0 {
        assert(!meta_keys(&files[0]).contains(key));
        let rest = files.drop_first();
        assert forall|j: int| 0 <= j < i - 1 implies !meta_keys(&#[trigger] rest[j]).contains(
            key,
        ) by {
            assert(rest[j] == files[j + 1]);
        }
        lemma_meta_holder_is_first(rest, i - 1, key);
    }
}

proof fn lemma_tensor_holder_is_first(files: Seq<GGuf<'_>>, i: int, name: Seq<char>)
    requires
        0 <= i <= files.len(),
        i < files.len() ==> tensor_types(&files[i]).contains_key(name),
        forall|j: int| 0 <= j < i ==> !tensor_types(&#[trigger] files[j]).contains_key(name),
    ensures
        tensor_holder(files, name) == i,
    decreases files.len(),
{
    if i > 0 {
        assert(!tensor_types(&files[0]).contains_key(name));
        let rest = files.drop_first();
        assert forall|j: int| 0 <= j < i - 1 implies !tensor_types(&#[trigger] rest[j]).contains_key(
            name,
        ) by {
            assert(rest[j] == files[j + 1]);
        }
        lemma_tensor_holder_is_first(rest, i - 1, name);
    }
}

/// Of several files, the first that has a tensor is the one that counts.
pub proof fn law_the_first_tensor_counts(gguf: &GGufModel<'_>, i: int, name: Seq<char>)
    requires
        0 <= i < gguf.files@.len(),
        tensor_types(&gguf.files@[i]).contains_key(name),
        forall|j: int| 0 <= j < i ==> !tensor_types(&#[trigger] gguf.files@[j]).contains_key(name),
    ensures
        contents(gguf).tensors.contains_key(name),
        contents(gguf).tensors[name] == tensor_types(&gguf.files@[i])[name],
{
    lemma_tensor_holder_is_first(gguf.files@, i, name);
}

/// What no file has is not there.
pub proof fn law_nothing_is_made_up(gguf: &GGufModel<'_>, key: Seq<char>, name: Seq<char>)
    requires
        forall|j: int|
            0 <= j < gguf.files@.len() ==> !meta_keys(&#[trigger] gguf.files@[j]).contains(key),
        forall|j: int|
            0 <= j < gguf.files@.len() ==> !tensor_types(&#[trigger] gguf.files@[j]).contains_key(
                name,
            ),
    ensures
        ({
            let c = contents(gguf);
            &&& !c.keys.contains(key)
            &&& !c.strs.contains_key(key)
            &&& !c.usizes.contains_key(key)
            &&& !c.f32s.contains_key(key)
            &&& !c.str_arrs.contains_key(key)
            &&& !c.tensors.contains_key(name)
        }),
{
    lemma_meta_holder_is_first(gguf.files@, gguf.files@.len() as int, key);
    lemma_tensor_holder_is_first(gguf.files@, gguf.files@.len() as int, name);
}

/// A model is read whenever its dimensions can be counted and its blocks have all their tensors.
pub proof fn law_models_with_all_tensors_are_read(c: Contents)
    requires
        meta_error(c) is None,
        ({
            let meta = meta_of(c);
            &&& meta.nctx * meta.dh <= usize::MAX
            &&& meta.dh % 2 == 0
            &&& 4 * (meta.nctx * (meta.dh / 2)) <= isize::MAX
            &&& 4 * (meta.dh / 2) <= isize::MAX
            &&& (meta.nh + meta.nkvh + meta.nkvh) * meta.dh <= usize::MAX
            &&& meta.nh + meta.nkvh + meta.nkvh <= usize::MAX
            &&& meta.nh * meta.dh <= usize::MAX
            &&& meta.di * 2 <= usize::MAX
            &&& forall|i: usize, part: Part|
                i < meta.nblk && (part is AttnQkvBias ==> meta.dt_bias is Some)
                    ==> c.tensors.contains_key(#[trigger] tensor_name(TensorName::Blk(i, part)))
        }),
    ensures
        init_error(c) is None,
{
    let meta = meta_of(c);
    law_even_heads_have_tables(meta.nctx, meta.dh);
    lemma_nothing_missing(c.tensors, meta.dt_bias is Some, meta.nblk as nat);
}

proof fn lemma_nothing_missing(tensors: Map<Seq<char>, u32>, bias: bool, n: nat)
    requires
        n <= usize::MAX,
        forall|i: usize, part: Part|
            i < n && (part is AttnQkvBias ==> bias) ==> tensors.contains_key(
                #[trigger] tensor_name(TensorName::Blk(i, part)),
            ),
    ensures
        missing_blk(tensors, bias, n) is None,
    decreases n,
{
    if n > 0 {
        lemma_nothing_missing(tensors, bias, (n - 1) as nat);
        let i = (n - 1) as usize;
        assert(tensors.contains_key(tensor_name(TensorName::Blk(i, Part::AttnNorm))));
        assert(tensors.contains_key(tensor_name(TensorName::Blk(i, Part::AttnQkv))));
        assert(tensors.contains_key(tensor_name(TensorName::Blk(i, Part::AttnOutput))));
        assert(tensors.contains_key(tensor_name(TensorName::Blk(i, Part::FfnNorm))));
        assert(tensors.contains_key(tensor_name(TensorName::Blk(i, Part::FfnGateUp))));
        assert(tensors.contains_key(tensor_name(TensorName::Blk(i, Part::FfnDown))));
        if bias {
            assert(tensors.contains_key(tensor_name(TensorName::Blk(i, Part::AttnQkvBias))));
        }
    }
}

/// A tensor that a model is said to lack is not in its files, and the blocks before its own have
/// all theirs.
pub proof fn law_missing_tensors_are_missing(
    tensors: Map<Seq<char>, u32>,
    bias: bool,
    n: nat,
    iblk: usize,
    part: Part,
    before: usize,
    other: Part,
)
    requires
        n <= usize::MAX,
        missing_blk(tensors, bias, n) == Some(TensorName::Blk(iblk, part)),
        before < iblk,
        other is AttnQkvBias ==> bias,
    ensures
        iblk < n,
        !tensors.contains_key(tensor_name(TensorName::Blk(iblk, part))),
        part is AttnQkvBias ==> bias,
        tensors.contains_key(tensor_name(TensorName::Blk(before, other))),
    decreases n,
{
    let last = (n - 1) as nat;
    if missing_blk(tensors, bias, last) is Some {
        law_missing_tensors_are_missing(tensors, bias, last, iblk, part, before, other);
    } else {
        assert(iblk == last);
        lemma_none_missing(tensors, bias, before as nat, last);
    }
}

/// Heads of an even width have tables, as far as those fit into memory: half a head's width for
/// each position.
pub proof fn law_even_heads_have_tables(nctx: usize, dh: usize)
    requires
        nctx * dh <= usize::MAX,
        dh % 2 == 0,
        4 * (nctx * (dh / 2)) <= isize::MAX,
        4 * (dh / 2) <= isize::MAX,
    ensures
        table_error(nctx, dh) is None,
{
    let half = (dh / 2) as usize;
    let shape = seq![nctx, half];
    assert(nctx * dh == 2 * (nctx * half)) by (nonlinear_arith)
        requires
            dh == 2 * half,
    ;
    assert forall|i: int| -1 <= i < 2 implies #[trigger] tensor::dense_stride(shape, 4, i)
        <= isize::MAX by {
        assert(shape.skip(0) =~= shape);
        assert(shape.skip(1) =~= seq![half]);
        assert(shape.skip(2) =~= Seq::<usize>::empty());
        assert(shape.drop_first() =~= seq![half]);
        assert(seq![half].drop_first() =~= Seq::<usize>::empty());
        assert(tensor::product(Seq::<usize>::empty()) == 1);
        assert(tensor::product(seq![half]) == half as nat * 1);
        assert(tensor::product(shape) == nctx as nat * tensor::product(seq![half]));
    }
}

/// Heads of an odd width have no tables, where there is more than one position.
pub proof fn law_odd_heads_have_no_tables(nctx: usize, dh: usize)
    requires
        dh % 2 == 1,
        nctx > 1,
    ensures
        table_error(nctx, dh) is Some,
{
    let half = (dh / 2) as int;
    assert(dh == 2 * half + 1);
    assert(nctx * dh == 2 * (nctx * half) + nctx) by (nonlinear_arith)
        requires
            dh == 2 * half + 1,
    ;
}

/// The cache of a conversation has room for all positions, blocks, keys and values, heads and
/// their widths as the files say, and elements like those of the embeddings.
pub proof fn law_the_cache_is_as_the_files_say(c: Contents)
    requires
        kv_error(c) is None,
    ensures
        ({
            let arch = c.strs["general.architecture"@];
            let shape = kv_shape(c);
            let nh = c.usizes[arch + ".attention.head_count"@];
            &&& shape.len() == 5
            &&& shape[0] == c.usizes[arch + ".context_length"@]
            &&& shape[1] == c.usizes[arch + ".block_count"@]
            &&& shape[2] == 2
            &&& shape[3] == if c.usizes.contains_key(arch + ".attention.head_count_kv"@) {
                c.usizes[arch + ".attention.head_count_kv"@]
            } else {
                nh
            }
            &&& c.usizes.contains_key(arch + ".rope.dimension_count"@) ==> shape[4]
                == c.usizes[arch + ".rope.dimension_count"@]
            &&& !c.usizes.contains_key(arch + ".rope.dimension_count"@) ==> nh > 0 && shape[4]
                == c.usizes[arch + ".embedding_length"@] / nh
            &&& c.tensors.contains_key("token_embd.weight"@)
            &&& kv_type(c) == Ok::<u32, ModelError>(c.tensors["token_embd.weight"@])
            &&& type_sizes(c.tensors["token_embd.weight"@]).0 == 1
        }),
{
}

/// A key begins with the name of the architecture, but for the two that all architectures share.
pub proof fn law_keys_begin_with_the_architecture(key: MetaKey, arch: Seq<char>)
    ensures
        key is Architecture || key is Tokens || arch.is_prefix_of(key_name(key, arch)),
        key is Architecture || key is Tokens ==> key_name(key, arch) == key_name(key, seq![]),
{
    if !(key is Architecture || key is Tokens) {
        assert(key_name(key, arch).take(arch.len() as int) =~= arch);
    }
}

/// What is wrong with a number that has no default: it is missing where there is nothing under its
/// key, and unreadable where there is something else.
pub proof fn law_errors_say_what_is_wrong<T>(
    keys: Set<Seq<char>>,
    values: Map<Seq<char>, T>,
    key: MetaKey,
    arch: Seq<char>,
)
    ensures
        ({
            let read = reading(keys, values, key, arch);
            let name = key_name(key, arch);
            &&& read matches Ok(value) ==> values.contains_key(name) && value == values[name]
            &&& values.contains_key(name) ==> read is Ok
            &&& !values.contains_key(name) && keys.contains(name) ==> read == Err::<T, ModelError>(
                ModelError::Unreadable(key),
            )
            &&& !values.contains_key(name) && !keys.contains(name) ==> read == Err::<T, ModelError>(
                ModelError::Missing(key),
            )
        }),
{
}

/// What is said to be wrong with the files of a model is wrong with them.
pub proof fn law_errors_are_true(c: Contents)
    requires
        meta_error(c) is Some,
    ensures
        ({
            let arch = c.strs["general.architecture"@];
            match meta_error(c)->0 {
                ModelError::Missing(key) => !c.keys.contains(
                    key_name(
                        key,
                        if key is Architecture {
                            seq![]
                        } else {
                            arch
                        },
                    ),
                ) || !c.strs.contains_key("general.architecture"@),
                ModelError::Unreadable(key) => c.keys.contains(
                    key_name(
                        key,
                        if key is Architecture {
                            seq![]
                        } else {
                            arch
                        },
                    ),
                ),
                ModelError::Arch => arch != "llama"@ && arch != "qwen2"@,
                ModelError::NoTensor(name) => !c.tensors.contains_key(tensor_name(name)),
                ModelError::Type(code) => code == 4 || code == 5 || 31 <= code <= 33,
                ModelError::NoHeads => c.usizes[arch + ".attention.head_count"@] == 0
                    && !c.keys.contains(arch + ".rope.dimension_count"@),
                ModelError::TooLarge => false,
                ModelError::OddHeads => false,
            }
        }),
{
}

/// A conversation has a cache whenever the files have its dimensions, the elements of the
/// embeddings stand alone, and all of it can be counted.
pub proof fn law_complete_files_have_caches(c: Contents)
    requires
        ({
            let arch = c.strs["general.architecture"@];
            let code = c.tensors["token_embd.weight"@];
            &&& c.strs.contains_key("general.architecture"@)
            &&& c.usizes.contains_key(arch + ".context_length"@)
            &&& c.usizes.contains_key(arch + ".block_count"@)
            &&& c.usizes.contains_key(arch + ".embedding_length"@)
            &&& c.usizes.contains_key(arch + ".attention.head_count"@)
            &&& c.usizes[arch + ".attention.head_count"@] > 0
            &&& c.keys.contains(arch + ".attention.head_count_kv"@) ==> c.usizes.contains_key(
                arch + ".attention.head_count_kv"@,
            )
            &&& c.keys.contains(arch + ".rope.dimension_count"@) ==> c.usizes.contains_key(
                arch + ".rope.dimension_count"@,
            )
            &&& c.tensors.contains_key("token_embd.weight"@)
            &&& code != 4 && code != 5 && !(31 <= code <= 33)
            &&& type_sizes(code).0 == 1
            &&& forall|i: int| 0 <= i < 5 ==> #[trigger] kv_shape(c)[i] > 0
            &&& type_sizes(code).1 * (kv_shape(c)[0] * (kv_shape(c)[1] * (2 * (kv_shape(c)[3]
                * kv_shape(c)[4])))) <= isize::MAX
        }),
    ensures
        kv_error(c) is None,
{
    let shape = kv_shape(c);
    let elem = type_sizes(c.tensors["token_embd.weight"@]).1 as usize;
    tensor::law_what_fits(shape, elem);
    assert(shape.drop_first() =~= seq![shape[1], shape[2], shape[3], shape[4]]);
    assert(shape.drop_first().drop_first() =~= seq![shape[2], shape[3], shape[4]]);
    assert(shape.drop_first().drop_first().drop_first() =~= seq![shape[3], shape[4]]);
    tensor::law_elements_multiply(seq![shape[3]], shape[4]);
    tensor::law_elements_multiply(seq![], shape[3]);
    assert(seq![shape[3]].push(shape[4]) =~= seq![shape[3], shape[4]]);
    let p4 = tensor::product(seq![shape[3], shape[4]]);
    let p3 = tensor::product(seq![shape[2], shape[3], shape[4]]);
    let p2 = tensor::product(seq![shape[1], shape[2], shape[3], shape[4]]);
    assert(p4 == shape[3] as nat * shape[4] as nat);
    assert(p3 == shape[2] as nat * p4);
    assert(p2 == shape[1] as nat * p3);
    assert(tensor::product(shape) == shape[0] as nat * p2);
}

} // verus!

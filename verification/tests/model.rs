use ggus::GGuf;
use llama_serve::model::{
    build, build_sin_cos, init, kv_cache, read_meta, sin_cos_index, Activation, GGufModel, MetaKey,
    ModelError, NormType, Part, TensorName, EPSILON, THETA,
};

const U32: u32 = 4;
const F32: u32 = 6;
const STRING: u32 = 8;
const ARRAY: u32 = 9;

fn string(data: &mut Vec<u8>, text: &str) {
    data.extend((text.len() as u64).to_le_bytes());
    data.extend(text.as_bytes());
}

/// A GGUF file, put together piece by piece.
struct File {
    metas: Vec<(String, u32, Vec<u8>)>,
    tensors: Vec<(String, u32)>,
}

impl File {
    fn meta(mut self, key: &str, ty: u32, value: Vec<u8>) -> Self {
        self.metas.retain(|(k, _, _)| k != key);
        self.metas.push((key.to_string(), ty, value));
        self
    }

    fn without_meta(mut self, key: &str) -> Self {
        self.metas.retain(|(k, _, _)| k != key);
        self
    }

    fn number(self, key: &str, value: u32) -> Self {
        self.meta(key, U32, value.to_le_bytes().to_vec())
    }

    fn float(self, key: &str, value: f32) -> Self {
        self.meta(key, F32, value.to_le_bytes().to_vec())
    }

    fn text(self, key: &str, value: &str) -> Self {
        let mut data = vec![];
        string(&mut data, value);
        self.meta(key, STRING, data)
    }

    fn tokens(self, tokens: &[&str]) -> Self {
        let mut data = vec![];
        data.extend(STRING.to_le_bytes());
        data.extend((tokens.len() as u64).to_le_bytes());
        for token in tokens {
            string(&mut data, token);
        }
        self.meta("tokenizer.ggml.tokens", ARRAY, data)
    }

    fn tensor(mut self, name: &str, ty: u32) -> Self {
        self.tensors.retain(|(n, _)| n != name);
        self.tensors.push((name.to_string(), ty));
        self
    }

    fn without_tensor(mut self, name: &str) -> Self {
        self.tensors.retain(|(n, _)| n != name);
        self
    }

    fn bytes(&self) -> Vec<u8> {
        let mut data = b"GGUF".to_vec();
        data.extend(3u32.to_le_bytes());
        data.extend((self.tensors.len() as u64).to_le_bytes());
        data.extend((self.metas.len() as u64).to_le_bytes());
        for (key, ty, value) in &self.metas {
            string(&mut data, key);
            data.extend(ty.to_le_bytes());
            data.extend(value);
        }
        for (name, ty) in &self.tensors {
            string(&mut data, name);
            data.extend(1u32.to_le_bytes());
            data.extend(256u64.to_le_bytes());
            data.extend(ty.to_le_bytes());
            data.extend(0u64.to_le_bytes());
        }
        while data.len() % 32 != 0 {
            data.push(0);
        }
        data.extend([0; 2048]);
        data
    }
}

const PARTS: [&str; 6] = [
    "attn_norm.weight",
    "attn_qkv.weight",
    "attn_output.weight",
    "ffn_norm.weight",
    "ffn_gate_up.weight",
    "ffn_down.weight",
];

fn llama() -> File {
    let mut file = File { metas: vec![], tensors: vec![] }
        .text("general.architecture", "llama")
        .tokens(&["a", "b", "c", "d", "e"])
        .number("llama.context_length", 32)
        .number("llama.block_count", 2)
        .number("llama.embedding_length", 48)
        .number("llama.attention.head_count", 6)
        .number("llama.feed_forward_length", 100)
        .tensor("token_embd.weight", 1)
        .tensor("output_norm.weight", 0);
    for i in 0..2 {
        for part in PARTS {
            file = file.tensor(&format!("blk.{i}.{part}"), 30);
        }
    }
    file
}

fn model(data: &[u8]) -> GGufModel<'_> {
    GGufModel { files: vec![GGuf::new(data).unwrap()] }
}

fn error_of(file: File) -> ModelError {
    let data = file.bytes();
    match init(&model(&data)) {
        Ok(_) => panic!("no error"),
        Err(e) => e,
    }
}

fn kv_error_of(file: File) -> ModelError {
    let data = file.bytes();
    match kv_cache(&model(&data)) {
        Ok(_) => panic!("no error"),
        Err(e) => e,
    }
}

#[test]
fn names_of_tensors() {
    assert_eq!(TensorName::TokenEmbd.name(), "token_embd.weight");
    assert_eq!(TensorName::OutputNorm.name(), "output_norm.weight");
    assert_eq!(TensorName::Output.name(), "output.weight");
    assert_eq!(TensorName::Blk(0, Part::AttnNorm).name(), "blk.0.attn_norm.weight");
    assert_eq!(TensorName::Blk(12, Part::AttnQkv).name(), "blk.12.attn_qkv.weight");
    assert_eq!(TensorName::Blk(3, Part::AttnQkvBias).name(), "blk.3.attn_qkv.bias");
    assert_eq!(TensorName::Blk(4, Part::AttnOutput).name(), "blk.4.attn_output.weight");
    assert_eq!(TensorName::Blk(5, Part::FfnNorm).name(), "blk.5.ffn_norm.weight");
    assert_eq!(TensorName::Blk(6, Part::FfnGateUp).name(), "blk.6.ffn_gate_up.weight");
    assert_eq!(TensorName::Blk(7, Part::FfnDown).name(), "blk.7.ffn_down.weight");
    assert_eq!(TensorName::SinTable.name(), "sin_table");
    assert_eq!(TensorName::CosTable.name(), "cos_table");
}

#[test]
fn names_of_metadata() {
    assert_eq!(MetaKey::Architecture.name("llama"), "general.architecture");
    assert_eq!(MetaKey::Tokens.name("llama"), "tokenizer.ggml.tokens");
    assert_eq!(MetaKey::ContextLength.name("llama"), "llama.context_length");
    assert_eq!(MetaKey::HeadCountKv.name("qwen2"), "qwen2.attention.head_count_kv");
    assert_eq!(MetaKey::RopeFreqBase.name("x"), "x.rope.freq_base");
}

#[test]
fn defaults() {
    assert_eq!(f32::from_bits(EPSILON), 1e-5);
    assert_eq!(f32::from_bits(THETA), 1e4);
    let data = llama().bytes();
    let meta = read_meta(&model(&data)).unwrap();
    assert_eq!(meta.dt_bias, None);
    assert_eq!((meta.nvoc, meta.nctx, meta.nblk, meta.d), (5, 32, 2, 48));
    assert_eq!((meta.nh, meta.nkvh, meta.dh, meta.di), (6, 6, 8, 100));
    assert_eq!((meta.epsilon, meta.theta), (EPSILON, THETA));
    assert_eq!((meta.dt_embd, meta.dt_norm, meta.dt_linear), (1, 0, 30));
}

#[test]
fn everything_given() {
    let data = llama()
        .number("llama.attention.head_count_kv", 2)
        .number("llama.rope.dimension_count", 16)
        .float("llama.attention.layer_norm_rms_epsilon", 1e-6)
        .float("llama.rope.freq_base", 5e5)
        .bytes();
    let meta = read_meta(&model(&data)).unwrap();
    assert_eq!((meta.nkvh, meta.dh), (2, 16));
    assert_eq!(f32::from_bits(meta.epsilon), 1e-6);
    assert_eq!(f32::from_bits(meta.theta), 5e5);
}

#[test]
fn reading_a_model() {
    let data = llama()
        .number("llama.attention.head_count_kv", 2)
        .tensor("output.weight", 1)
        .bytes();
    let llama = init(&model(&data)).unwrap();
    assert_eq!(llama.embedding.dt, 1);
    assert_eq!((llama.embedding.row, llama.embedding.d), (5, 48));
    assert_eq!(llama.embedding.wte, TensorName::TokenEmbd);
    assert_eq!(llama.blks.len(), 2);
    for (i, blk) in llama.blks.iter().enumerate() {
        assert_eq!(blk.attn_norm.d, 48);
        assert_eq!(
            blk.attn_norm.items,
            NormType::RmsNorm { dt: 0, scale: TensorName::Blk(i, Part::AttnNorm) }
        );
        assert_eq!((blk.attn.nh, blk.attn.nkvh), (6, 2));
        assert_eq!((blk.attn.qkv.rows, blk.attn.qkv.columns), (80, 48));
        assert_eq!(blk.attn.qkv.weight, TensorName::Blk(i, Part::AttnQkv));
        assert_eq!(blk.attn.qkv.bias, None);
        assert_eq!(blk.attn.rope.unwrap().nctx, 32);
        assert_eq!((blk.attn.output.rows, blk.attn.output.columns), (48, 48));
        assert_eq!(
            blk.ffn_norm.items,
            NormType::RmsNorm { dt: 0, scale: TensorName::Blk(i, Part::FfnNorm) }
        );
        assert_eq!((blk.ffn.up.rows, blk.ffn.up.columns), (200, 48));
        assert_eq!(blk.ffn.act, Activation::SwiGLU);
        assert_eq!((blk.ffn.down.rows, blk.ffn.down.columns), (48, 100));
        assert_eq!(blk.ffn.down.weight, TensorName::Blk(i, Part::FfnDown));
    }
    assert_eq!(llama.out_norm.items, NormType::RmsNorm { dt: 0, scale: TensorName::OutputNorm });
    assert_eq!((llama.lm_head.rows, llama.lm_head.columns), (5, 48));
    assert_eq!(llama.lm_head.weight, TensorName::Output);
}

#[test]
fn the_embedding_stands_in_for_the_output() {
    let data = llama().bytes();
    let llama = init(&model(&data)).unwrap();
    assert_eq!(llama.lm_head.weight, TensorName::TokenEmbd);
}

#[test]
fn biases() {
    let mut file = File { metas: vec![], tensors: vec![] }
        .text("general.architecture", "qwen2")
        .tokens(&["a"])
        .number("qwen2.context_length", 4)
        .number("qwen2.block_count", 1)
        .number("qwen2.embedding_length", 8)
        .number("qwen2.attention.head_count", 2)
        .number("qwen2.feed_forward_length", 3)
        .tensor("token_embd.weight", 1)
        .tensor("output_norm.weight", 0)
        .tensor("blk.0.attn_qkv.bias", 0);
    for part in PARTS {
        file = file.tensor(&format!("blk.0.{part}"), 1);
    }
    let data = file.bytes();
    let llama = init(&model(&data)).unwrap();
    let bias = llama.blks[0].attn.qkv.bias.unwrap();
    assert_eq!((bias.dt, bias.item), (0, TensorName::Blk(0, Part::AttnQkvBias)));
    assert_eq!(
        error_of(file.without_tensor("blk.0.attn_qkv.bias")),
        ModelError::NoTensor(TensorName::Blk(0, Part::AttnQkvBias))
    );
}

#[test]
fn errors() {
    assert_eq!(
        error_of(llama().without_meta("general.architecture")),
        ModelError::Missing(MetaKey::Architecture)
    );
    assert_eq!(
        error_of(llama().number("general.architecture", 1)),
        ModelError::Unreadable(MetaKey::Architecture)
    );
    assert_eq!(error_of(llama().text("general.architecture", "gpt2")), ModelError::Arch);
    assert_eq!(
        error_of(llama().without_meta("tokenizer.ggml.tokens")),
        ModelError::Missing(MetaKey::Tokens)
    );
    assert_eq!(
        error_of(llama().number("tokenizer.ggml.tokens", 1)),
        ModelError::Unreadable(MetaKey::Tokens)
    );
    assert_eq!(
        error_of(llama().without_meta("llama.block_count")),
        ModelError::Missing(MetaKey::BlockCount)
    );
    assert_eq!(
        error_of(llama().text("llama.feed_forward_length", "many")),
        ModelError::Unreadable(MetaKey::FeedForwardLength)
    );
    assert_eq!(
        error_of(llama().text("llama.attention.head_count_kv", "many")),
        ModelError::Unreadable(MetaKey::HeadCountKv)
    );
    assert_eq!(
        error_of(llama().number("llama.rope.freq_base", 1)),
        ModelError::Unreadable(MetaKey::RopeFreqBase)
    );
    assert_eq!(error_of(llama().number("llama.attention.head_count", 0)), ModelError::NoHeads);
    assert_eq!(
        error_of(llama().without_tensor("token_embd.weight")),
        ModelError::NoTensor(TensorName::TokenEmbd)
    );
    assert_eq!(
        error_of(llama().without_tensor("blk.0.attn_norm.weight")),
        ModelError::NoTensor(TensorName::Blk(0, Part::AttnNorm))
    );
    assert_eq!(
        error_of(llama().without_tensor("blk.1.ffn_down.weight").without_tensor(
            "blk.1.ffn_norm.weight"
        )),
        ModelError::NoTensor(TensorName::Blk(1, Part::FfnNorm))
    );
    assert_eq!(error_of(llama().number("llama.rope.dimension_count", 7)), ModelError::OddHeads);
    assert_eq!(
        error_of(
            llama()
                .number("llama.context_length", u32::MAX)
                .number("llama.rope.dimension_count", u32::MAX - 1)
        ),
        ModelError::TooLarge
    );
}

#[test]
fn key_value_caches() {
    let data = llama().number("llama.attention.head_count_kv", 2).bytes();
    let cache = kv_cache(&model(&data)).unwrap();
    assert_eq!(cache.elem, 2);
    assert_eq!(cache.layout.shape, vec![32, 2, 2, 2, 8]);
    assert_eq!(cache.layout.strides, vec![128, 64, 32, 16, 2]);
    assert_eq!(cache.item, 4096);
    let data = llama().tensor("token_embd.weight", 0).bytes();
    assert_eq!(kv_cache(&model(&data)).unwrap().elem, 4);
    let data = llama().text("general.architecture", "gpt2");
    assert_eq!(kv_error_of(data), ModelError::Missing(MetaKey::BlockCount));
    assert_eq!(kv_error_of(llama().tensor("token_embd.weight", 8)), ModelError::Type(8));
    assert_eq!(
        kv_error_of(llama().without_tensor("token_embd.weight")),
        ModelError::NoTensor(TensorName::TokenEmbd)
    );
    assert_eq!(
        kv_error_of(llama().number("llama.context_length", u32::MAX).number("llama.block_count", u32::MAX)),
        ModelError::TooLarge
    );
}

#[test]
fn building_without_a_file() {
    let data = llama().bytes();
    let mut meta = read_meta(&model(&data)).unwrap();
    meta.nblk = 0;
    meta.nh = usize::MAX;
    let llama = build(meta, TensorName::Output);
    assert!(llama.blks.is_empty());
    assert_eq!(llama.lm_head.weight, TensorName::Output);
}

#[test]
fn tables_of_rotations() {
    let table = build_sin_cos(32, 8).unwrap();
    assert_eq!(table.layout.shape, vec![32, 4]);
    assert_eq!(table.item, 512);
    let mut seen = vec![false; 128];
    for pos in 0..32 {
        for i in 0..4 {
            let at = sin_cos_index(pos, i, 8);
            assert!(!seen[at]);
            seen[at] = true;
        }
    }
    assert!(seen.into_iter().all(|x| x));
    assert_eq!(build_sin_cos(2, 3).err(), Some(ModelError::OddHeads));
    assert_eq!(build_sin_cos(1, 3).unwrap().item, 4);
    assert_eq!(build_sin_cos(usize::MAX, 2).err(), Some(ModelError::TooLarge));
}

#[test]
fn models_in_several_files() {
    let empty = || File { metas: vec![], tensors: vec![] };
    let whole = llama();
    let mut metas = empty();
    let mut tensors = empty();
    for (i, (key, ty, value)) in whole.metas.iter().enumerate() {
        if i % 2 == 0 {
            metas = metas.meta(key, *ty, value.clone());
        } else {
            tensors = tensors.meta(key, *ty, value.clone());
        }
    }
    for (name, ty) in &whole.tensors {
        tensors = tensors.tensor(name, *ty);
    }
    // what comes later does not replace what was there
    let last = empty()
        .number("llama.embedding_length", 1)
        .tensor("token_embd.weight", 0)
        .tensor("output.weight", 0)
        .bytes();
    let (metas, tensors, whole) = (metas.bytes(), tensors.bytes(), whole.bytes());
    let files = || vec![GGuf::new(&metas).unwrap(), GGuf::new(&tensors).unwrap()];
    let parts = GGufModel { files: files() };
    assert_eq!(read_meta(&parts), read_meta(&model(&whole)));
    assert_eq!(init(&parts).unwrap().lm_head.weight, TensorName::TokenEmbd);
    let mut more = GGufModel { files: files() };
    more.files.push(GGuf::new(&last).unwrap());
    assert_eq!(read_meta(&more), read_meta(&parts));
    assert_eq!(init(&more).unwrap().lm_head.weight, TensorName::Output);
    assert_eq!(kv_cache(&more).unwrap().elem, 2);
    let alone = GGufModel { files: vec![GGuf::new(&tensors).unwrap()] };
    assert!(matches!(init(&alone), Err(ModelError::Missing(_))));
    assert!(matches!(
        init(&GGufModel { files: vec![] }),
        Err(ModelError::Missing(MetaKey::Architecture))
    ));
}

use llama_serve::exec::{
    block_cache, building, check_block, offset_ptr, BuildStep, Exec, ModelExec, Step,
};
use llama_serve::kv_cache::{KVCache, PageChange};
use llama_serve::model::{Linear, NormType, Normalization, TensorName};
use llama_serve::mono::output_head;
use llama_serve::output_head::{OutputHead, Pick};
use llama_serve::tensor::{fits, Layout, Tensor};

#[test]
fn dense_tensors() {
    let tensor = Tensor::new(2, vec![2, 3, 4]);
    assert_eq!(tensor.item, 48);
    assert_eq!(tensor.layout.shape, vec![2, 3, 4]);
    assert_eq!(tensor.layout.strides, vec![24, 8, 2]);
    assert_eq!(tensor.layout.offset, 0);
    let copy = tensor.duplicate();
    assert_eq!(copy.layout.strides, tensor.layout.strides);
    assert_eq!(tensor.with('m').item, 'm');
    assert_eq!(Tensor::new(4, vec![]).item, 4);
}

#[test]
fn sizes_that_fit() {
    assert!(fits(4, &vec![1 << 20, 1 << 20]));
    assert!(!fits(4, &vec![1 << 31, 1 << 31]));
    assert!(!fits(4, &vec![0, 1 << 31, 1 << 31]));
    assert!(!fits(usize::MAX, &vec![]));
}

#[test]
fn parts_of_caches() {
    // [nctx, nblk, 2, nkvh, dh]
    let template = Tensor::new(2, vec![16, 3, 2, 8, 4]);
    let cache = KVCache::new(&template, 1, 4);
    assert_eq!(cache.tensor.layout.shape, vec![2, 3, 2, 16, 4]);
    assert_eq!(cache.tensor.layout.strides, vec![8, 32, 16, 96, 2]);
    assert_eq!(cache.tensor.item, 16 * 96);
    assert_eq!(cache.size_per_token, 96);
    assert_eq!(cache.mapped, 0);
    assert_eq!(cache.buf_len(), 16);
    assert_eq!(cache.as_tensor().elem, 2);
    let cache = cache.with("memory");
    assert_eq!(cache.tensor.item, "memory");
}

#[test]
fn pages_of_caches() {
    let mut cache = KVCache::new(&Tensor::new(2, vec![16, 3, 2, 8, 4]), 4, 4);
    assert_eq!(cache.size_per_token, 384);
    assert_eq!(cache.update(3, 512), PageChange::Grow { start: 0, end: 3 });
    assert_eq!(cache.update(4, 512), PageChange::Keep);
    assert_eq!(cache.update(16, 512), PageChange::Grow { start: 3, end: 12 });
    assert_eq!(cache.update(1, 512), PageChange::Shrink { start: 1, end: 12 });
    assert_eq!(cache.update(0, 512), PageChange::Shrink { start: 0, end: 1 });
    assert_eq!(cache.mapped, 0);
}

#[test]
fn keys_and_values_of_blocks() {
    let cache = KVCache::new(&Tensor::new(2, vec![16, 3, 2, 8, 4]), 1, 1);
    assert!(check_block(&cache.tensor.layout, 2));
    assert!(!check_block(&cache.tensor.layout, 3));
    let (k, v) = block_cache(&cache.tensor.layout, 2);
    assert_eq!(k.shape, vec![8, 16, 4]);
    assert_eq!(k.strides, vec![8, 384, 2]);
    assert_eq!(k.offset, 2 * 128);
    assert_eq!(v.shape, k.shape);
    assert_eq!(v.strides, k.strides);
    assert_eq!(v.offset, 2 * 128 + 64);
}

#[test]
fn addresses() {
    let mut tensor = Tensor::new(2, vec![4]);
    tensor.item = 1000;
    assert_eq!(offset_ptr(&tensor), 1000);
    tensor.layout.offset = 24;
    assert_eq!(offset_ptr(&tensor), 1024);
    tensor.layout.offset = -24;
    assert_eq!(offset_ptr(&tensor), 976);
}

fn edges() -> Vec<Tensor<char>> {
    vec![
        Tensor::new(4, vec![8]).with('t'),
        Tensor::new(4, vec![8]).with('p'),
        Tensor::new(4, vec![1]).with('i'),
        Tensor::new(2, vec![1, 5, 7]).with('l'),
    ]
}

#[test]
fn launching_a_compiled_model() {
    let exec = ModelExec::new(
        4,
        vec![Exec::Graph("g"), Exec::Attention(1, "a"), Exec::Graph("h")],
        512,
        &edges(),
        &vec![0, 1, 2],
        &vec![3],
    );
    assert_eq!(exec.n_tok, 4);
    assert_eq!(exec.workspace, 512);
    assert_eq!(exec.inputs.iter().map(|t| t.item).collect::<Vec<_>>(), vec!['t', 'p', 'i']);
    let cache = KVCache::new(&Tensor::new(2, vec![16, 3, 2, 8, 4]), 1, 1);
    let launch = exec.launch(&vec![7, 8, 9], 10, &cache.tensor.layout, &output_head(7, 8));
    assert_eq!(launch.map, 512);
    assert_eq!(
        launch.inputs,
        vec![('t', vec![7, 8, 9, 0]), ('p', vec![10, 11, 12, 13]), ('i', vec![2])]
    );
    assert_eq!(launch.steps.len(), 3);
    assert!(matches!(launch.steps[0], Step::Graph));
    match &launch.steps[1] {
        Step::Attention { k_cache, v_cache, pos } => {
            assert_eq!((k_cache.offset, v_cache.offset, *pos), (128, 192, 10));
        }
        Step::Graph => panic!(),
    }
    assert_eq!(launch.logits.item, 'l');
    assert_eq!(launch.logits.elem, 2);
    assert_eq!(launch.logits.layout.shape, vec![5, 7]);
    assert_eq!(launch.logits.layout.strides, vec![14, 2]);
    assert_eq!(launch.head.indices.layout.shape, vec![7]);
    assert_eq!((launch.head.indices.item, launch.head.kv_pair), (28, 8));
    assert_eq!(launch.head.kv_pair_host, 8);
}

#[test]
fn making_a_compiled_model() {
    assert_eq!(
        building(512),
        vec![
            BuildStep::Reserve(512),
            BuildStep::MapPages,
            BuildStep::Record,
            BuildStep::UnmapPages,
        ]
    );
}

#[test]
fn fewer_inputs_get_fewer_numbers() {
    let exec =
        ModelExec::<(), (), char>::new(2, vec![], 0, &edges(), &vec![0, 1], &vec![3]);
    let cache = Layout { shape: vec![], strides: vec![], offset: 0 };
    let launch = exec.launch(&vec![5, 6], 0, &cache, &output_head(7, 8));
    assert_eq!(launch.inputs, vec![('t', vec![5, 6]), ('p', vec![0, 1])]);
    assert!(launch.steps.is_empty());
}

fn logits(shape: Vec<usize>, strides: Vec<isize>) -> bool {
    let output = Tensor { elem: 2, layout: Layout { shape, strides, offset: 0 }, item: 'l' };
    ModelExec::<(), (), char>::new(1, vec![], 0, &vec![output], &vec![], &vec![0]).check_logits()
}

#[test]
fn logits_in_one_row() {
    assert!(logits(vec![2, 3, 7], vec![42, 14, 2]));
    assert!(logits(vec![1, 3, 7], vec![999, 14, 2]));
    assert!(logits(vec![3, 1, 7], vec![14, 999, 2]));
    assert!(logits(vec![1, 1], vec![5, 5]));
    assert!(!logits(vec![2, 3, 7], vec![43, 14, 2]));
    assert!(!logits(vec![0, 3], vec![6, 2]));
    assert!(!logits(vec![3], vec![2]));
    assert!(!logits(vec![2, 3], vec![isize::MAX, isize::MAX]));
    let none = ModelExec::<(), (), char>::new(1, vec![], 0, &vec![], &vec![], &vec![]);
    assert!(!none.check_logits());
}

fn merged(shape: Vec<usize>, strides: Vec<isize>, offset: isize) -> (Vec<usize>, Vec<isize>, isize) {
    let output = Tensor { elem: 2, layout: Layout { shape, strides, offset }, item: 'l' };
    let exec = ModelExec::<(), (), char>::new(1, vec![], 0, &vec![output], &vec![], &vec![0]);
    assert!(exec.check_logits());
    let cache = Layout { shape: vec![], strides: vec![], offset: 0 };
    let Layout { shape, strides, offset } = exec.launch(&vec![1], 0, &cache, &output_head(7, 8)).logits.layout;
    (shape, strides, offset)
}

#[test]
fn logits_are_merged() {
    assert_eq!(merged(vec![2, 3, 7], vec![42, 14, 2], 5), (vec![6, 7], vec![14, 2], 5));
    assert_eq!(merged(vec![1, 3, 7], vec![999, 14, 2], 0), (vec![3, 7], vec![14, 2], 0));
    assert_eq!(merged(vec![3, 1, 7], vec![14, 999, 2], 0), (vec![3, 7], vec![14, 2], 0));
    assert_eq!(merged(vec![1, 1, 7], vec![5, 6, 2], 0), (vec![1, 7], vec![0, 2], 0));
    assert_eq!(merged(vec![2, 3], vec![-6, -2], 10), (vec![6], vec![-2], 10));
}

fn head() -> OutputHead {
    OutputHead::new(
        Normalization {
            d: 3,
            epsilon: 9,
            items: NormType::RmsNorm { dt: 0, scale: TensorName::OutputNorm },
        },
        Linear { dt: 1, rows: 5, columns: 3, weight: TensorName::Output, bias: None },
    )
}

#[test]
fn output_heads() {
    let head = head();
    assert_eq!(head.norm, TensorName::OutputNorm);
    assert_eq!(head.linear, TensorName::Output);
    assert_eq!(head.epsilon, 9);
    assert_eq!(head.nvoc, 5);
}

#[test]
fn sampling_at_the_end_of_a_round() {
    let x = Tensor::new(2, vec![8, 3]);
    let plan = head().launch(&x, vec![3, 4, 7], vec![(true, 'a'), (false, 'b')], 16);
    assert_eq!(plan.rows, vec![3, 4, 7]);
    assert_eq!(plan.out.layout.shape, vec![3, 3]);
    assert_eq!(plan.out.item, 18);
    assert_eq!(plan.norm, TensorName::OutputNorm);
    assert_eq!(plan.epsilon, 9);
    assert_eq!(plan.linear, TensorName::Output);
    assert_eq!(plan.logits.layout.shape, vec![3, 5]);
    assert_eq!(plan.logits.item, 30);
    assert_eq!(plan.kv_pairs, 48);
    assert_eq!(plan.samples.len(), 2);
    for (i, sample) in plan.samples.iter().enumerate() {
        assert_eq!(sample.row, [3, 4][i]);
        assert_eq!(sample.logits.shape, vec![5]);
        assert_eq!(sample.logits.strides, vec![2]);
        assert_eq!(sample.logits.offset, [0, 10][i]);
        assert_eq!(sample.kv_pair, [0, 16][i]);
    }
    assert!(matches!(plan.samples[0].pick, Pick::Argmax));
    assert!(matches!(plan.samples[1].pick, Pick::Random('b')));
}

use llama_serve::group::Op;
use llama_serve::mono::{
    check_text, check_token, loader_sizes, loads, model_index, model_sizes, ops, output_head, prompt,
    sample_indices, weight_size, Generation, KVCache,
};
use llama_serve::tensor::Tensor;
use tokeneer::{Bpe, Tokeneer};

#[test]
fn prompts() {
    assert_eq!(prompt(None), "Once upon a time,");
    assert_eq!(prompt(Some("Hello".to_string())), "Hello");
}

#[test]
fn operators_on_one_device() {
    let names = ops().into_iter().map(Op::name).collect::<Vec<_>>();
    assert_eq!(
        names,
        vec![
            "embedding",
            "rms-norm",
            "layer-norm",
            "attention",
            "split",
            "swiglu",
            "gelu",
            "linear",
            "rope",
            "concat",
        ]
    );
}

#[test]
fn memory_for_weights() {
    assert_eq!(weight_size(0, 512), 0);
    assert_eq!(weight_size(1, 512), 512);
    assert_eq!(weight_size(512, 512), 512);
    assert_eq!(weight_size(513, 512), 1024);
    assert_eq!(loader_sizes(&vec![(10, 1), (20, 4), (30, 3), (40, 9)]), vec![10, 30]);
    assert_eq!(
        loads(&vec![(0, 4), (4, 8), (0, 4), (0, 8), (4, 8)]),
        vec![true, true, false, true, false]
    );
}

#[test]
fn models_for_rounds() {
    assert_eq!(model_sizes(), vec![1, 2, 4, 8, 16, 32, 64]);
    for len in 1..=64usize {
        assert_eq!(model_index(len), len.next_power_of_two().trailing_zeros() as usize);
    }
}

fn tokeneer() -> Tokeneer<Bpe> {
    let bpe = Bpe::new(
        ["<unk>", "a", "b", "ab", "c"],
        [0., 1., 1., 2., 1.],
        [false, false, false, false, false],
        0,
    );
    Tokeneer::new(bpe)
}

fn with_bytes() -> Tokeneer<Bpe> {
    let bpe = Bpe::new(
        ["<unk>", "a", "b", "ab", "<0x78>", "<0xC3>", "<0xA9>"],
        [0., 1., 1., 2., 1., 1., 1.],
        [false, false, false, false, true, true, true],
        0,
    );
    Tokeneer::new(bpe)
}

#[test]
fn generating() {
    let tokeneer = tokeneer();
    let mut generation = Generation::new(&tokeneer, "abcab");
    assert_eq!(generation.tokens, vec![3, 4, 3]);
    assert_eq!(generation.pos, 0);
    assert_eq!(generation.printed, "abcab");
    assert_eq!(generation.advance(&tokeneer, 2), "b");
    assert_eq!((generation.tokens.clone(), generation.pos), (vec![2], 3));
    assert_eq!(generation.proceed(&tokeneer, 3), Some("ab".to_string()));
    assert_eq!((generation.tokens.clone(), generation.pos), (vec![3], 4));
    assert_eq!(generation.printed, "abcabbab");
    assert_eq!(generation.proceed(&tokeneer, 0), Some("<unk>".to_string()));
    assert_eq!(generation.proceed(&tokeneer, 5), None);
    assert_eq!((generation.tokens.clone(), generation.pos), (vec![0], 5));
}

#[test]
fn texts_that_can_be_encoded() {
    let tokeneer = tokeneer();
    assert!(check_text(&tokeneer, ""));
    assert!(check_text(&tokeneer, "abc"));
    assert!(check_text(&tokeneer, "x"));
    assert!(!check_text(&tokeneer, "abx"));
    assert!(!check_text(&tokeneer, "xabx"));
    assert!(!check_text(&tokeneer, "abxc"));
    assert!(!check_text(&tokeneer, "ab\u{e9}"));
    assert!(Generation::begin(&tokeneer, "abx").is_none());
    assert_eq!(Generation::begin(&tokeneer, "abc").unwrap().tokens, vec![3, 4]);
    for (text, tokens) in [
        ("x", vec![0]),
        ("xa", vec![0, 1]),
        ("xab", vec![0, 3]),
        ("axb", vec![1, 0, 2]),
        ("abcx", vec![3, 4, 0]),
        ("abcxxab", vec![3, 4, 0, 0, 3]),
        ("c\u{e9}c", vec![4, 0, 0, 4]),
    ] {
        assert_eq!(Generation::begin(&tokeneer, text).unwrap().tokens, tokens);
    }
    let tokeneer = with_bytes();
    assert_eq!(Generation::begin(&tokeneer, "abx").unwrap().tokens, vec![3, 4]);
    assert_eq!(Generation::begin(&tokeneer, "ab\u{e9}a").unwrap().tokens, vec![3, 5, 6, 1]);
    assert!(!check_text(&tokeneer, "aby"));
}

#[test]
fn pieces_that_no_merge_makes_do_no_harm() {
    let bpe = Bpe::new(
        ["<unk>", "a", "b", "c", "d", "ab", "ac", "ad", "bd", "bcd"],
        [0., 1., 1., 1., 1., 1.1, 1.2, 1.3, 1.4, 10.],
        [false; 10],
        0,
    );
    let tokeneer = Tokeneer::new(bpe);
    let generation = Generation::begin(&tokeneer, "abcdx").unwrap();
    assert_eq!(generation.tokens, vec![1, 9, 0]);
    assert_eq!(generation.printed, "abcdx");
    assert!(Generation::begin(&tokeneer, "cabx").is_none());

    let bpe = Bpe::new(["<unk>", "<s>", "s", "a"], [0., 0., 1., 1.], [false; 4], 0);
    let tokeneer = Tokeneer::new(bpe);
    assert_eq!(Generation::begin(&tokeneer, "<s>a").unwrap().tokens, vec![1, 3]);
    assert_eq!(Generation::begin(&tokeneer, "<a>").unwrap().tokens, vec![0, 3, 0]);
}

#[test]
fn short_unknown_tokens_do_no_harm() {
    let bpe = Bpe::new(["?", "a", "b", "ab"], [0., 1., 1., 2.], [false; 4], 0);
    let tokeneer = Tokeneer::new(bpe);
    assert_eq!(Generation::begin(&tokeneer, "abx").unwrap().tokens, vec![3, 0]);
    assert_eq!(Generation::begin(&tokeneer, "xabxab").unwrap().tokens, vec![0, 3, 0, 3]);
}

#[test]
fn pieces_with_an_unknown_character() {
    let bpe = Bpe::new(["<unk>", "a", "ax"], [0., 1., 2.], [false; 3], 0);
    let tokeneer = Tokeneer::new(bpe);
    assert!(!check_text(&tokeneer, "ax"));
    assert!(check_text(&tokeneer, "xa"));
}

#[test]
fn tokens_that_are_texts() {
    let tokeneer = with_bytes();
    for token in [0, 1, 2, 3, 4] {
        assert!(check_token(&tokeneer, token));
    }
    for token in [5, 6, 7, u32::MAX] {
        assert!(!check_token(&tokeneer, token));
    }
}

#[test]
fn caches_on_one_device() {
    let template = Tensor::new(2, vec![16, 3, 2, 8, 4]);
    let cache = KVCache::new(&template);
    assert_eq!(cache.tensor.layout.shape, vec![8, 3, 2, 16, 4]);
    assert_eq!(cache.tensor.layout.strides, vec![8, 128, 64, 384, 2]);
    assert_eq!(cache.tensor.item, template.item);
}

#[test]
fn sampling_one_token() {
    let indices = sample_indices(100);
    assert_eq!(indices.item, 400);
    assert_eq!(indices.layout.shape, vec![100]);
    let head = output_head(100, 8);
    assert_eq!((head.kv_pair, head.kv_pair_host, head.indices.item), (8, 8, 400));
}

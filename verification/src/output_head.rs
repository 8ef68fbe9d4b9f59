//! The end of a round: from what a model puts out to the tokens that are sampled from it.
use crate::model::{Linear, NormType, Normalization, TensorName};
use crate::tensor;
use crate::tensor::{Layout, Tensor};
use tokeneer::utok;
use vstd::prelude::*;

verus! {

/// The last normalization and product of a model.
#[derive(Clone, Copy, PartialEq, Eq, Structural, Debug)]
pub struct OutputHead {
    pub norm: TensorName,
    pub linear: TensorName,
    pub epsilon: u32,
    /// The size of the vocabulary.
    pub nvoc: usize,
}

/// How a token is picked from its logits.
pub enum Pick<A> {
    /// The most likely one.
    Argmax,
    /// At random, with these arguments.
    Random(A),
}

/// How one token is sampled.
pub struct Sample<A> {
    /// The row of the model's output that the logits come from.
    pub row: utok,
    /// Where the logits stand.
    pub logits: Layout,
    /// Where the result goes, in bytes from the start of all results.
    pub kv_pair: usize,
    pub pick: Pick<A>,
}

/// What is done at the end of a round: rows are picked, normalized and multiplied with the
/// weight, and a token is sampled from each product.
pub struct OutputPlan<A> {
    /// The rows that are picked.
    pub rows: Vec<utok>,
    /// What they are picked into, one row for each, and normalized in.
    pub out: Tensor<usize>,
    /// The scale of the normalization.
    pub norm: TensorName,
    pub epsilon: u32,
    /// The weight of the product.
    pub linear: TensorName,
    /// The products, one row for each.
    pub logits: Tensor<usize>,
    /// The bytes that all results take.
    pub kv_pairs: usize,
    pub samples: Vec<Sample<A>>,
}

/// How a token with this configuration is picked: the configuration says whether the most
/// likely one is wanted, and has the arguments for picking at random.
pub open spec fn pick_of<A>(config: (bool, A)) -> Pick<A> {
    if config.0 {
        Pick::Argmax
    } else {
        Pick::Random(config.1)
    }
}

/// How the token at position `i` is sampled, over a vocabulary of `nvoc` and with elements of
/// `elem` bytes: from the row that `rows` has there, with the configuration that `config` has
/// there.
pub open spec fn is_sample<A>(
    sample: Sample<A>,
    i: int,
    rows: Seq<utok>,
    config: Seq<(bool, A)>,
    nvoc: usize,
    elem: usize,
    pair_size: usize,
) -> bool {
    &&& sample.row == rows[i]
    &&& sample.logits.wf()
    &&& sample.logits.shape@ == seq![nvoc]
    &&& sample.logits.strides@ == seq![elem as isize]
    &&& sample.logits.offset == i * (elem * nvoc)
    &&& sample.kv_pair == i * pair_size
    &&& sample.pick == pick_of(config[i])
}

proof fn lemma_rows_of_logits(n: usize, nvoc: usize, elem: usize)
    requires
        tensor::dense_fits(seq![n, nvoc], elem),
    ensures
        tensor::dense_stride(seq![n, nvoc], elem, 0) == elem * nvoc,
        tensor::dense_stride(seq![n, nvoc], elem, 1) == elem,
        n * (elem * nvoc) <= isize::MAX,
{
    let dims = seq![n, nvoc];
    let one = seq![nvoc];
    assert(dims.skip(0) =~= dims);
    assert(dims.skip(1) =~= one);
    assert(dims.skip(2) =~= Seq::<usize>::empty());
    assert(dims.drop_first() =~= one);
    assert(one.drop_first() =~= Seq::<usize>::empty());
    assert(tensor::product(Seq::<usize>::empty()) == 1);
    assert(tensor::product(one) == nvoc as nat * 1);
    assert(tensor::product(dims) == n as nat * tensor::product(one));
    assert(tensor::dense_stride(dims, elem, 1) == elem as nat * 1);
    assert(tensor::dense_stride(dims, elem, -1) == elem as nat * (n as nat * nvoc as nat));
    assert(tensor::dense_stride(dims, elem, -1) <= isize::MAX);
    assert(n * (elem * nvoc) <= isize::MAX) by (nonlinear_arith)
        requires
            elem as nat * (n as nat * nvoc as nat) <= isize::MAX,
    ;
}

impl OutputHead {
    /// The end of a model whose last normalization is one by the root mean square.
    pub fn new(out_norm: Normalization, lm_head: Linear) -> (head: Self)
        requires
            out_norm.items is RmsNorm,
        ensures
            head.norm == out_norm.items->RmsNorm_scale,
            head.linear == lm_head.weight,
            head.epsilon == out_norm.epsilon,
            head.nvoc == lm_head.rows,
    {
        let norm = match out_norm.items {
            NormType::RmsNorm { scale, .. } => scale,
            NormType::LayerNorm { scale, .. } => scale,
        };
        OutputHead {
            norm,
            linear: lm_head.weight,
            epsilon: out_norm.epsilon,
            nvoc: lm_head.rows,
        }
    }

    /// What is done at the end of a round with `x`, of which the rows at `out_idx` are picked.
    /// The tokens are sampled in their order, as many as there are configurations.
    pub fn launch<X, A>(
        &self,
        x: &Tensor<X>,
        out_idx: Vec<utok>,
        config: Vec<(bool, A)>,
        pair_size: usize,
    ) -> (plan: OutputPlan<A>)
        requires
            x.layout.shape@.len() == 2,
            forall|i: int| 0 <= i < out_idx.len() ==> out_idx@[i] < x.layout.shape@[0],
            tensor::dense_fits(seq![out_idx.len(), x.layout.shape@[1]], x.elem),
            tensor::dense_fits(seq![out_idx.len(), self.nvoc], x.elem),
            out_idx.len() <= isize::MAX,
            out_idx.len() * pair_size <= usize::MAX,
            config.len() <= out_idx.len(),
        ensures
            plan.rows == out_idx,
            plan.out.is_dense(seq![out_idx.len(), x.layout.shape@[1]], x.elem),
            plan.out.item == tensor::dense_bytes(
                seq![out_idx.len(), x.layout.shape@[1]],
                x.elem,
            ),
            plan.norm == self.norm,
            plan.epsilon == self.epsilon,
            plan.linear == self.linear,
            plan.logits.is_dense(seq![out_idx.len(), self.nvoc], x.elem),
            plan.logits.item == tensor::dense_bytes(seq![out_idx.len(), self.nvoc], x.elem),
            plan.kv_pairs == out_idx.len() * pair_size,
            plan.samples.len() == config.len(),
            forall|i: int|
                0 <= i < config.len() ==> is_sample(
                    #[trigger] plan.samples@[i],
                    i,
                    out_idx@,
                    config@,
                    self.nvoc,
                    x.elem,
                    pair_size,
                ),
    {
        let out_len: usize = out_idx.len();
        let d: usize = x.layout.shape[1];
        let nvoc: usize = self.nvoc;
        let out_shape: Vec<usize> = vec![out_len, d];
        let logits_shape: Vec<usize> = vec![out_len, nvoc];
        assert(out_shape@ =~= seq![out_len, d]);
        assert(logits_shape@ =~= seq![out_len, nvoc]);
        let out = Tensor::new(x.elem, out_shape);
        let logits = Tensor::new(x.elem, logits_shape);
        let ghost dims = seq![out_len, nvoc];
        let ghost row = x.elem * nvoc;
        proof {
            lemma_rows_of_logits(out_len, nvoc, x.elem);
        }
        let mut samples: Vec<Sample<A>> = Vec::new();
        let ghost configs = config@;
        let mut rest = config;
        let n: usize = rest.len();
        let mut i: usize = 0;
        while i < n
            invariant
                i <= n,
                n == configs.len(),
                n <= out_len <= isize::MAX,
                out_len == out_idx.len(),
                rest@ == configs.skip(i as int),
                out_len * pair_size <= usize::MAX,
                out_len * row <= isize::MAX,
                row == x.elem * nvoc,
                dims == seq![out_len, nvoc],
                logits.is_dense(dims, x.elem),
                tensor::dense_stride(dims, x.elem, 0) == row,
                tensor::dense_stride(dims, x.elem, 1) == x.elem,
                samples.len() == i,
                forall|j: int|
                    0 <= j < i ==> is_sample(
                        #[trigger] samples@[j],
                        j,
                        out_idx@,
                        configs,
                        nvoc,
                        x.elem,
                        pair_size,
                    ),
            decreases n - i,
        {
            proof {
                assert(i * pair_size <= out_len * pair_size) by (nonlinear_arith)
                    requires
                        i <= out_len,
                ;
                assert(0 <= i * row <= out_len * row) by (nonlinear_arith)
                    requires
                        0 <= i <= out_len,
                        row >= 0,
                ;
                assert(logits.layout.strides@[0] == row);
                assert(logits.layout.strides@[1] == x.elem);
                assert(rest@[0] == configs[i as int]);
                assert(rest@.remove(0) =~= configs.skip(i as int + 1));
            }
            let line = logits.layout.index(0, i);
            assert(line.shape@ =~= seq![nvoc]);
            assert(line.strides@ =~= seq![x.elem as isize]);
            let (argmax, args) = rest.remove(0);
            let pick = if argmax {
                Pick::Argmax
            } else {
                Pick::Random(args)
            };
            samples.push(
                Sample { row: out_idx[i], logits: line, kv_pair: i * pair_size, pick },
            );
            i = i + 1;
        }
        OutputPlan {
            rows: out_idx,
            out,
            norm: self.norm,
            epsilon: self.epsilon,
            linear: self.linear,
            logits,
            kv_pairs: out_len * pair_size,
            samples,
        }
    }
}

/// The rows of logits follow each other without gaps, and the results likewise.
pub proof fn law_samples_do_not_overlap<A>(
    a: Sample<A>,
    b: Sample<A>,
    i: int,
    rows: Seq<utok>,
    config: Seq<(bool, A)>,
    nvoc: usize,
    elem: usize,
    pair_size: usize,
)
    requires
        0 <= i,
        i + 1 < config.len(),
        is_sample(a, i, rows, config, nvoc, elem, pair_size),
        is_sample(b, i + 1, rows, config, nvoc, elem, pair_size),
    ensures
        b.logits.offset == a.logits.offset + elem * nvoc,
        b.kv_pair == a.kv_pair + pair_size,
{
    assert((i + 1) * (elem * nvoc) == i * (elem * nvoc) + elem * nvoc) by (nonlinear_arith);
    assert((i + 1) * pair_size == i * pair_size + pair_size) by (nonlinear_arith);
}

/// Token `i` is sampled from row `i` of the logits, which come from the row of the model's output
/// that was asked for there, as its own configuration says, and its result goes to place `i`.
pub proof fn law_samples_are_made_as_configured<A>(
    sample: Sample<A>,
    i: int,
    rows: Seq<utok>,
    config: Seq<(bool, A)>,
    nvoc: usize,
    elem: usize,
    pair_size: usize,
)
    requires
        is_sample(sample, i, rows, config, nvoc, elem, pair_size),
        elem <= isize::MAX,
    ensures
        sample.row == rows[i],
        sample.logits.shape@.len() == 1,
        sample.logits.shape@[0] == nvoc,
        sample.logits.strides@.len() == 1,
        sample.logits.strides@[0] == elem,
        sample.logits.offset == i * (nvoc * elem),
        sample.kv_pair == i * pair_size,
        config[i].0 ==> sample.pick is Argmax,
        !config[i].0 ==> (sample.pick matches Pick::Random(args) && args == config[i].1),
{
    assert(elem * nvoc == nvoc * elem) by (nonlinear_arith);
}

} // verus!

//! Layers, their parameters and their state.

use mamba3::autograd::graph::Session;
use mamba3::autograd::var::Var;
use mamba3::error::Error;
use mamba3::nn::attention::{causal_bias, AttentionCache, AttentionConfig, FORBIDDEN};
use mamba3::nn::conv::{shift_by, CausalConv1dConfig, PatchEmbedConfig};
use mamba3::nn::dropout::Dropout;
use mamba3::nn::embedding::{EmbeddingConfig, PositionalEmbedding};
use mamba3::nn::init::{Initializer, Rng};
use mamba3::nn::linear::{Linear, LinearConfig};
use mamba3::nn::lora::LoraConfig;
use mamba3::nn::mlp::{Activation, MlpConfig};
use mamba3::nn::module::Tree;
use mamba3::nn::norm::{LayerNormConfig, RmsNormConfig};
use mamba3::nn::param::Param;
use mamba3::nn::quant::{Granularity, QuantConfig, QuantScheme, Quantizer};
use mamba3::nn::rope::RotaryEmbedding;
use mamba3::nn::sequential::Sequential;
use mamba3::nn::state::{load_state_dict, state_dict, StateDict};
use mamba3::nn::store::Store;
use mamba3::shape::Shape;
use mamba3::tensor::{IdTensor, Tensor};
use mamba3::term::{Fused, Scalar, Term, Unary};

fn ground() -> (Session, Store, Rng) {
    (Session::new(), Store::new(), Rng::seeded(7))
}

fn input(dims: Vec<usize>) -> Var {
    Var::constant(Tensor::resident(1, Shape::new(dims)))
}

fn texts(list: &[&str]) -> Vec<String> {
    list.iter().map(|t| String::from(*t)).collect()
}

fn paths<M: Tree>(m: &M) -> Vec<String> {
    m.named_parameters().into_iter().map(|p| p.0).collect()
}

#[test]
fn a_projection_changes_the_last_axis() {
    let (mut s, mut st, mut rng) = ground();
    let l = LinearConfig::new(3, 5).init(&mut s, &mut st, &mut rng);
    let y = l.apply(&mut s, &mut st, &input(vec![2, 4, 3])).unwrap();
    assert_eq!(y.dims(), &vec![2, 4, 5]);
    assert_eq!(l.in_features(&st), Some(3));
    assert_eq!(l.out_features(&st), Some(5));
    assert_eq!(paths(&l), texts(&["weight", "bias"]));
    assert_eq!(l.num_parameters(&st), Some(20));
    assert!(matches!(l.apply(&mut s, &mut st, &input(vec![2, 4])), Err(Error::Shape(_))));
    let bare = LinearConfig::new(3, 5).with_bias(false).init(&mut s, &mut st, &mut rng);
    assert_eq!(bare.num_parameters(&st), Some(15));
    assert!(bare.bias().is_none());
}

#[test]
fn an_adapter_starts_at_zero_and_can_be_folded_in() {
    let (mut s, mut st, mut rng) = ground();
    let config = LoraConfig::builder().rank(2).alpha(4.0f32.to_bits()).build().unwrap();
    assert_eq!(config.scaling(), Scalar::BitsOver(4.0f32.to_bits(), 2));
    let l = LinearConfig::new(3, 5).with_lora(config).init(&mut s, &mut st, &mut rng);
    let b = l.lora().unwrap().b().value(&st).unwrap();
    assert!(matches!(**b.term(), Term::Fill(Scalar::Int(0), _)));
    assert_eq!(paths(&l), texts(&["weight", "bias", "lora.lora_a", "lora.lora_b"]));
    let y = l.apply(&mut s, &mut st, &input(vec![2, 3])).unwrap();
    assert_eq!(y.dims(), &vec![2, 5]);
    l.freeze_base(&mut st);
    assert_eq!(l.num_trainable_parameters(&st), Some(2 * 3 + 2 * 5));
    l.merge_lora(&mut st).unwrap();
    let b = l.lora().unwrap().b().value(&st).unwrap();
    assert_eq!(b.dims(), &vec![2, 5]);
    assert!(matches!(**b.term(), Term::Fill(Scalar::Int(0), _)));
    let plain = LinearConfig::new(3, 5).init(&mut s, &mut st, &mut rng);
    assert!(matches!(plain.merge_lora(&mut st), Err(Error::Config(_))));
}

#[test]
fn adapters_are_checked() {
    let e = LoraConfig::builder().rank(0).build().unwrap_err();
    assert_eq!(e.message(), "invalid configuration: LoRA rank must be positive");
    let e = LoraConfig::builder().dropout(1.0f32.to_bits()).build().unwrap_err();
    assert_eq!(e.message(), "invalid configuration: LoRA dropout must be in [0, 1)");
    assert_eq!(LoraConfig::builder().build().unwrap(), LoraConfig::default());
}

#[test]
fn only_what_is_trained_gets_a_gradient() {
    let (mut s, mut st, mut rng) = ground();
    let l = LinearConfig::new(3, 2).init(&mut s, &mut st, &mut rng);
    let x = Var::traced(&mut s, Tensor::resident(1, Shape::new(vec![4, 3])));
    let loss = l.apply(&mut s, &mut st, &x).unwrap().sum(&mut s);
    let grads = loss.backward(&mut s).unwrap();
    assert_eq!(grads.len(), 2);
    assert_eq!(grads.get(l.weight().id()).unwrap().dims(), &vec![3, 2]);
    assert_eq!(grads.get(l.bias().unwrap().id()).unwrap().dims(), &vec![2]);
    l.weight().freeze(&mut st);
    let x = Var::traced(&mut s, Tensor::resident(1, Shape::new(vec![4, 3])));
    let loss = l.apply(&mut s, &mut st, &x).unwrap().sum(&mut s);
    let grads = loss.backward(&mut s).unwrap();
    assert!(grads.get(l.weight().id()).is_none());
    assert!(grads.get(l.bias().unwrap().id()).is_some());
}

#[test]
fn patterns_choose_what_is_frozen() {
    let (mut s, mut st, mut rng) = ground();
    let l = LinearConfig::new(3, 2).init(&mut s, &mut st, &mut rng);
    l.freeze_matching(&mut st, &texts(&["eig"]));
    assert!(!l.weight().requires_grad(&st));
    assert!(l.bias().unwrap().requires_grad(&st));
    l.freeze_matching(&mut st, &vec![]);
    assert_eq!(l.trainable_parameters(&st).len(), 0);
    l.unfreeze_matching(&mut st, &texts(&["bias", "nothing"]));
    assert_eq!(l.trainable_parameters(&st), vec![*l.bias().unwrap()]);
    l.unfreeze_matching(&mut st, &vec![]);
    assert_eq!(l.trainable_parameters(&st).len(), 2);
}

#[test]
fn a_snapshot_restores() {
    let (mut s, mut st, mut rng) = ground();
    let l = LinearConfig::new(3, 2).init(&mut s, &mut st, &mut rng);
    l.weight().freeze(&mut st);
    let kept = state_dict(&l, &st).unwrap();
    assert_eq!(kept.len(), 2);
    assert_eq!((kept.name_at(0).as_str(), kept.name_at(1).as_str()), ("bias", "weight"));
    l.set_weight(&mut st, Tensor::resident(99, Shape::new(vec![3, 2])));
    assert!(matches!(**l.weight().value(&st).unwrap().term(), Term::Input(99)));
    load_state_dict(&l, &mut st, &kept, true).unwrap();
    assert!(!matches!(**l.weight().value(&st).unwrap().term(), Term::Input(99)));
    assert!(!l.weight().requires_grad(&st));
}

#[test]
fn a_state_must_fit() {
    let (mut s, mut st, mut rng) = ground();
    let l = LinearConfig::new(3, 2).init(&mut s, &mut st, &mut rng);
    let mut state = StateDict::new();
    state.insert("weight", Tensor::resident(5, Shape::new(vec![3, 2])));
    assert!(matches!(load_state_dict(&l, &mut st, &state, true), Err(Error::StateDict(_))));
    assert!(load_state_dict(&l, &mut st, &state, false).is_ok());
    assert!(matches!(**l.weight().value(&st).unwrap().term(), Term::Input(5)));
    state.insert("bias", Tensor::resident(6, Shape::new(vec![2])));
    state.insert("other", Tensor::resident(7, Shape::new(vec![2])));
    assert!(matches!(load_state_dict(&l, &mut st, &state, true), Err(Error::StateDict(_))));
    let mut state = StateDict::new();
    state.insert("weight", Tensor::resident(5, Shape::new(vec![2, 3])));
    state.insert("bias", Tensor::resident(6, Shape::new(vec![2])));
    let e = load_state_dict(&l, &mut st, &state, true).unwrap_err();
    assert!(matches!(e, Error::StateDict(_)));
}

#[test]
fn a_state_can_be_filtered() {
    let mut state = StateDict::new();
    state.insert("layers.0.lora.a", Tensor::resident(1, Shape::new(vec![1])));
    state.insert("layers.0.weight", Tensor::resident(2, Shape::new(vec![1])));
    state.insert("layers.0.weight", Tensor::resident(3, Shape::new(vec![1])));
    assert_eq!(state.len(), 2);
    assert!(matches!(**state.get("layers.0.weight").unwrap().term(), Term::Input(3)));
    let adapters = state.filter("lora");
    assert_eq!(adapters.len(), 1);
    assert!(adapters.get("layers.0.weight").is_none());
}

#[test]
fn chains_run_in_order() {
    let (mut s, mut st, mut rng) = ground();
    let chain: Sequential<Linear> = Sequential::new()
        .push(LinearConfig::new(3, 5).init(&mut s, &mut st, &mut rng))
        .push(LinearConfig::new(5, 4).with_bias(false).init(&mut s, &mut st, &mut rng));
    assert_eq!(chain.len(), 2);
    assert_eq!(paths(&chain).len(), 3);
    let y = mamba3::nn::module::Layer::forward(&chain, &mut s, &mut st, &input(vec![2, 3]));
    assert_eq!(y.unwrap().dims(), &vec![2, 4]);
    let y = mamba3::nn::module::Layer::forward(&chain, &mut s, &mut st, &input(vec![2, 5]));
    assert!(matches!(y, Err(Error::Shape(_))));
    let text = chain.describe(&st).unwrap();
    assert!(text.contains("[3, 5]"));
    assert!(text.contains("[5, 4]"));
}

#[test]
fn dropout_is_the_identity_in_evaluation() {
    let (mut s, mut st, _) = ground();
    let d = Dropout::new(&mut st, 0.5f32.to_bits());
    let x = input(vec![2, 3]);
    let first = d.apply(&mut s, &mut st, &x).unwrap();
    let second = d.apply(&mut s, &mut st, &x).unwrap();
    assert!(matches!(**first.tensor().term(), Term::Binary(_, _, _)));
    let seed = |v: &Var| match &**v.tensor().term() {
        Term::Binary(_, _, mask) => match &**mask {
            Term::Fused(Fused::DropMask(_, seed), _, _) => *seed,
            _ => panic!("no mask"),
        },
        _ => panic!("no product"),
    };
    assert_ne!(seed(&first), seed(&second));
    d.eval(&mut st);
    let y = d.apply(&mut s, &mut st, &x).unwrap();
    assert!(matches!(**y.tensor().term(), Term::Input(1)));
    d.train(&mut st);
    let y = d.apply(&mut s, &mut st, &x).unwrap();
    assert!(!matches!(**y.tensor().term(), Term::Input(1)));
    assert_eq!(Dropout::new(&mut st, 7.0f32.to_bits()).p(), 1.0f32.to_bits());
    assert!(Dropout::when_positive(&mut st, 0).is_none());
}

#[test]
fn norms_keep_the_shape() {
    let (mut s, mut st, mut rng) = ground();
    let n = RmsNormConfig::new(4).init(&mut s, &mut st, &mut rng);
    let y = n.apply(&mut s, &mut st, &input(vec![2, 4])).unwrap();
    assert_eq!(y.dims(), &vec![2, 4]);
    assert!(matches!(n.apply(&mut s, &mut st, &input(vec![4, 2])), Err(Error::Shape(_))));
    let bare = RmsNormConfig::new(4).with_weight(false).init(&mut s, &mut st, &mut rng);
    assert_eq!(bare.num_parameters(&st), Some(0));
    let l = LayerNormConfig::new(4).init(&mut s, &mut st, &mut rng);
    assert_eq!(l.num_parameters(&st), Some(8));
    let y = l.apply(&mut s, &mut st, &input(vec![3, 2, 4])).unwrap();
    assert_eq!(y.dims(), &vec![3, 2, 4]);
}

#[test]
fn feed_forward_keeps_the_width() {
    let (mut s, mut st, mut rng) = ground();
    let m = MlpConfig::new(4, 6).init(&mut s, &mut st, &mut rng);
    let y = m.apply(&mut s, &mut st, &input(vec![2, 3, 4])).unwrap();
    assert_eq!(y.dims(), &vec![2, 3, 4]);
    let plain = MlpConfig::new(4, 6).with_gated(false).with_activation(Activation::Gelu);
    let p = plain.init(&mut s, &mut st, &mut rng);
    assert!(p.num_parameters(&st).unwrap() < m.num_parameters(&st).unwrap());
    let y = p.apply(&mut s, &mut st, &input(vec![2, 3, 4])).unwrap();
    assert_eq!(y.dims(), &vec![2, 3, 4]);
}

#[test]
fn shifting_feeds_in_zeros() {
    let mut s = Session::new();
    let x = input(vec![2, 3, 4]);
    let y = shift_by(&mut s, &x, 1, 2).unwrap();
    assert_eq!(y.dims(), &vec![2, 3, 4]);
    let same = shift_by(&mut s, &x, 1, 0).unwrap();
    assert!(matches!(**same.tensor().term(), Term::Input(1)));
    let all = shift_by(&mut s, &x, 1, 9).unwrap();
    assert_eq!(all.dims(), &vec![2, 3, 4]);
}

#[test]
fn convolutions_hand_on_their_history() {
    let (mut s, mut st, mut rng) = ground();
    let c = CausalConv1dConfig::new(4, 3).init(&mut s, &mut st, &mut rng);
    let y = c.apply(&mut s, &mut st, &input(vec![2, 5, 4])).unwrap();
    assert_eq!(y.dims(), &vec![2, 5, 4]);
    let history = c.empty_history(2);
    assert_eq!(history.dims(), &vec![2, 2, 4]);
    let (y, next) = c.step(&mut s, &mut st, &input(vec![2, 1, 4]), &history).unwrap();
    assert_eq!(y.dims(), &vec![2, 1, 4]);
    assert_eq!(next.dims(), &vec![2, 2, 4]);
    assert!(matches!(
        c.apply(&mut s, &mut st, &input(vec![2, 4])),
        Err(Error::Rank { expected: 3, got: 2, .. })
    ));
    assert!(matches!(c.apply(&mut s, &mut st, &input(vec![2, 5, 3])), Err(Error::Shape(_))));
}

#[test]
fn patches_tile_the_image() {
    let (mut s, mut st, mut rng) = ground();
    let config = PatchEmbedConfig::new(8, 4, 3, 16);
    assert_eq!(config.num_patches(), 4);
    let e = config.init(&mut s, &mut st, &mut rng).unwrap();
    let y = e.apply(&mut s, &mut st, &input(vec![2, 3, 8, 8])).unwrap();
    assert_eq!(y.dims(), &vec![2, 4, 16]);
    assert!(matches!(
        e.apply(&mut s, &mut st, &input(vec![2, 3, 8, 4])),
        Err(Error::Shape(_))
    ));
    let e = PatchEmbedConfig::new(9, 4, 3, 16).init(&mut s, &mut st, &mut rng);
    assert!(matches!(e, Err(Error::Config(_))));
}

#[test]
fn embeddings_look_rows_up() {
    let (mut s, mut st, mut rng) = ground();
    let e = EmbeddingConfig::new(10, 4).init(&mut s, &mut st, &mut rng);
    let ids = IdTensor::resident(3, Shape::new(vec![2, 5]));
    let y = e.lookup(&mut s, &st, &ids, true).unwrap();
    assert_eq!(y.dims(), &vec![2, 5, 4]);
    assert!(y.is_tracked());
    e.weight().freeze(&mut st);
    assert!(!e.lookup(&mut s, &st, &ids, false).unwrap().is_tracked());
    assert_eq!((e.num_embeddings(&st), e.dim(&st)), (Some(10), Some(4)));
    let p = PositionalEmbedding::new(&mut s, &mut st, &mut rng, 6, 4);
    let z = p.add_to(&mut s, &st, &y, 1).unwrap();
    assert_eq!(z.dims(), &vec![2, 5, 4]);
    assert!(p.add_to(&mut s, &st, &y, 2).is_err());
}

#[test]
fn rotary_tables_cover_their_positions() {
    let mut s = Session::new();
    let base = 10000.0f32.to_bits();
    let r = RotaryEmbedding::new(4, 8, base).unwrap();
    let x = input(vec![1, 2, 3, 4]);
    assert_eq!(r.apply(&mut s, &x, 5).unwrap().dims(), &vec![1, 2, 3, 4]);
    assert!(matches!(r.apply(&mut s, &x, 6), Err(Error::Config(_))));
    let e = RotaryEmbedding::new(5, 8, base).unwrap_err();
    assert_eq!(e.message(), "invalid configuration: rotary dimension must be even, got 5");
}

#[test]
fn a_mask_hides_the_future() {
    let m = causal_bias(2, 4, 1);
    let o = 0u32;
    let f = FORBIDDEN;
    assert_eq!(m, vec![o, o, f, f, o, o, o, f]);
    assert_eq!(FORBIDDEN, (-1e9f32).to_bits());
}

#[test]
fn attention_fills_its_cache() {
    let (mut s, mut st, mut rng) = ground();
    let config = AttentionConfig::new(8, 4).with_kv_heads(2);
    let a = config.init(&mut s, &mut st, &mut rng).unwrap();
    assert_eq!((a.n_heads(), a.head_dim()), (4, 2));
    let y = a.apply(&mut s, &mut st, &input(vec![2, 5, 8])).unwrap();
    assert_eq!(y.dims(), &vec![2, 5, 8]);
    let mut cache = AttentionCache::new();
    assert!(cache.is_empty());
    a.apply_cached(&mut s, &mut st, &input(vec![2, 5, 8]), &mut cache).unwrap();
    assert_eq!(cache.len(), 5);
    let y = a.apply_cached(&mut s, &mut st, &input(vec![2, 1, 8]), &mut cache).unwrap();
    assert_eq!(y.dims(), &vec![2, 1, 8]);
    assert_eq!(cache.len(), 6);
    cache.reset();
    assert_eq!(cache.len(), 0);
    assert!(matches!(
        AttentionConfig::new(8, 4).with_kv_heads(3).init(&mut s, &mut st, &mut rng),
        Err(Error::Config(_))
    ));
    assert!(matches!(
        a.apply(&mut s, &mut st, &input(vec![5, 8])),
        Err(Error::Rank { expected: 3, got: 2, .. })
    ));
}

#[test]
fn grids_have_their_bounds() {
    let c = |bits, scheme| QuantConfig::builder().bits(bits).scheme(scheme).build().unwrap();
    assert_eq!(c(8, QuantScheme::Symmetric).bounds(), (-127, 127));
    assert_eq!(c(8, QuantScheme::Affine).bounds(), (0, 255));
    assert_eq!(c(2, QuantScheme::Symmetric).bounds(), (-1, 1));
    assert_eq!(c(16, QuantScheme::Affine).bounds(), (0, 65535));
    assert!(matches!(QuantConfig::builder().bits(1).build(), Err(Error::Config(_))));
    assert!(matches!(QuantConfig::builder().bits(17).build(), Err(Error::Config(_))));
    assert_eq!(
        QuantConfig::int8_weights().granularity,
        Granularity::PerChannel { axis: 1 }
    );
}

#[test]
fn activations_are_observed_while_training_only() {
    let (mut s, mut st, _) = ground();
    let q = Quantizer::new(&mut st, QuantConfig::int8_activations());
    let x = input(vec![2, 3]);
    assert!(q.observed_range(&st).is_none());
    let y = q.quantize(&mut s, &mut st, &x).unwrap();
    assert_eq!(y.dims(), &vec![2, 3]);
    let (lo, _) = q.observed_range(&st).unwrap();
    let before = std::sync::Arc::as_ptr(lo.term());
    q.eval(&mut st);
    q.quantize(&mut s, &mut st, &x).unwrap();
    let (lo, _) = q.observed_range(&st).unwrap();
    assert_eq!(std::sync::Arc::as_ptr(lo.term()), before);
    q.set_enabled(&mut st, false);
    assert!(!q.is_enabled(&st));
    let y = q.quantize(&mut s, &mut st, &x).unwrap();
    assert!(matches!(**y.tensor().term(), Term::Input(1)));
}

#[test]
fn initialisers_use_the_fans() {
    let mut rng = Rng::seeded(1);
    let t = Initializer::Zeros.init(Shape::new(vec![2, 3]), &mut rng);
    assert!(matches!(**t.term(), Term::Fill(Scalar::Int(0), _)));
    let t = Initializer::Ones.init(Shape::new(vec![2, 3]), &mut rng);
    assert!(matches!(**t.term(), Term::Fill(Scalar::Int(1), _)));
    let gain = 1.0f32.to_bits();
    let first = Initializer::KaimingUniform { gain }.init(Shape::new(vec![2, 3]), &mut rng);
    let second = Initializer::KaimingUniform { gain }.init(Shape::new(vec![2, 3]), &mut rng);
    let seed = |t: &Tensor| match &**t.term() {
        Term::Fused(Fused::UniformWithin(bound, seed, index), _, _) => (*bound, *seed, *index),
        _ => panic!("no uniform numbers"),
    };
    assert_eq!(seed(&first).0, Scalar::BitsTimesRoot(gain, 3, 2, 0));
    assert_ne!((seed(&first).1, seed(&first).2), (seed(&second).1, seed(&second).2));
}

#[test]
fn a_parameter_keeps_value_and_flag_apart() {
    let (mut s, mut st, _) = ground();
    let p = Param::new(&mut s, &mut st, Tensor::resident(4, Shape::new(vec![2, 2])));
    assert_eq!(p.numel(&st), Some(4));
    p.freeze(&mut st);
    p.set(&mut st, Tensor::resident(5, Shape::new(vec![3])));
    assert!(!p.requires_grad(&st));
    assert_eq!(p.shape(&st).unwrap().dims(), &vec![3]);
    p.set_requires_grad(&mut st, true);
    assert!(p.var_standalone(&mut s, &st).unwrap().is_tracked());
    let other = Param::new(&mut s, &mut st, Tensor::ones(Shape::new(vec![1])));
    assert_ne!(p.id(), other.id());
    let empty = Store::new();
    assert!(matches!(p.value(&empty), Err(Error::StateDict(_))));
    assert!(!matches!(**p.value(&st).unwrap().term(), Term::Unary(Unary::Neg, _)));
}

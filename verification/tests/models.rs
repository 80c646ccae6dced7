//! Mixers, stacks, the language model and the image model.

use mamba3::autograd::graph::Session;
use mamba3::autograd::var::Var;
use mamba3::error::Error;
use mamba3::models::hybrid::HybridConfig;
use mamba3::models::lm::{Mamba3Lm, Mamba3LmConfig};
use mamba3::models::mamba3::{Mamba3BlockConfig, Mamba3MixerConfig};
use mamba3::models::pattern::{LayerKind, LayerPattern};
use mamba3::models::vision::{Pooling, ScanDirection, VisionMamba3Config};
use mamba3::nn::attention::AttentionConfig;
use mamba3::nn::init::Rng;
use mamba3::nn::lora::LoraConfig;
use mamba3::nn::mlp::MlpConfig;
use mamba3::nn::module::Tree;
use mamba3::nn::store::Store;
use mamba3::shape::Shape;
use mamba3::ssm::config::{SsmConfig, SsmMode, StateDynamics};
use mamba3::tensor::{IdTensor, Tensor};

fn small() -> SsmConfig {
    SsmConfig {
        d_model: 8,
        n_heads: 2,
        n_groups: 2,
        head_dim: 4,
        d_state: 4,
        conv_kernel: Some(3),
        chunk_size: 4,
        ..SsmConfig::default()
    }
}

fn input(dims: Vec<usize>) -> Var {
    Var::constant(Tensor::resident(1, Shape::new(dims)))
}

fn model(s: &mut Session, st: &mut Store, tied: bool) -> Mamba3Lm {
    Mamba3LmConfig::builder()
        .d_model(8)
        .vocab_size(11)
        .n_layers(3)
        .pattern(LayerPattern::AttentionAt(vec![1]))
        .attention(AttentionConfig::new(8, 2))
        .mlp(MlpConfig::new(8, 16))
        .ssm(small())
        .tie_embeddings(tied)
        .build()
        .unwrap()
        .init(s, st)
        .unwrap()
}

#[test]
fn a_mixer_keeps_the_shape() {
    let (mut s, mut st, mut rng) = (Session::new(), Store::new(), Rng::seeded(3));
    let m = Mamba3MixerConfig::new(small()).init(&mut s, &mut st, &mut rng).unwrap();
    let y = m.apply(&mut s, &mut st, &input(vec![2, 6, 8])).unwrap();
    assert_eq!(y.dims(), &vec![2, 6, 8]);
    let (_, none) = m.apply_with_state(&mut s, &mut st, &input(vec![2, 6, 8]), None).unwrap();
    assert!(none.is_none());
    let cache = m.empty_cache(2);
    let (y, kept) =
        m.apply_with_state(&mut s, &mut st, &input(vec![2, 6, 8]), Some(&cache)).unwrap();
    assert_eq!(y.dims(), &vec![2, 6, 8]);
    let kept = kept.unwrap();
    assert_eq!(kept.num_elements(), cache.num_elements());
    let (y, next) = m.step(&mut s, &mut st, &input(vec![2, 1, 8]), &kept).unwrap();
    assert_eq!(y.dims(), &vec![2, 1, 8]);
    assert_eq!(next.num_elements(), cache.num_elements());
    assert!(!next.detach().ssm.hidden.is_tracked());
}

#[test]
fn a_mixer_that_reads_both_ways_has_no_state() {
    let (mut s, mut st, mut rng) = (Session::new(), Store::new(), Rng::seeded(3));
    let config = Mamba3MixerConfig::new(small()).with_bidirectional(true);
    let m = config.init(&mut s, &mut st, &mut rng).unwrap();
    let y = m.apply(&mut s, &mut st, &input(vec![2, 6, 8])).unwrap();
    assert_eq!(y.dims(), &vec![2, 6, 8]);
    let cache = m.empty_cache(2);
    assert!(m.step(&mut s, &mut st, &input(vec![2, 1, 8]), &cache).is_err());
    let odd = SsmConfig { n_heads: 3, n_groups: 3, ..small() };
    let config = Mamba3MixerConfig::new(odd).with_bidirectional(true);
    assert!(matches!(config.init(&mut s, &mut st, &mut rng), Err(Error::Config(_))));
}

#[test]
fn settings_must_fit_together() {
    assert!(small().validate().is_ok());
    let list = vec![
        SsmConfig { d_model: 0, ..small() },
        SsmConfig { n_groups: 0, ..small() },
        SsmConfig { n_heads: 3, ..small() },
        SsmConfig { mode: SsmMode::Mimo { rank: 0 }, ..small() },
        SsmConfig { chunk_size: 0, ..small() },
        SsmConfig { conv_kernel: Some(0), ..small() },
        SsmConfig { d_state: 3, dynamics: StateDynamics::Rotational, ..small() },
        SsmConfig { head_dim: usize::MAX, ..small() },
    ];
    for c in list {
        assert!(matches!(c.validate(), Err(Error::Config(_))));
    }
    let w = small().widths().unwrap();
    assert_eq!((w.inner, w.maps, w.conv, w.heads, w.lambda, w.theta), (8, 8, 24, 2, 2, 4));
    assert_eq!(w.total, 8 + 24 + 2 + 2 + 4);
}

#[test]
fn a_block_adds_to_its_input() {
    let (mut s, mut st, mut rng) = (Session::new(), Store::new(), Rng::seeded(3));
    let b = Mamba3BlockConfig::new(small()).init(&mut s, &mut st, &mut rng).unwrap();
    let y = b.apply(&mut s, &mut st, &input(vec![2, 6, 8])).unwrap();
    assert_eq!(y.dims(), &vec![2, 6, 8]);
    let cache = b.empty_cache(1);
    let (y, _) = b.step(&mut s, &mut st, &input(vec![1, 1, 8]), &cache).unwrap();
    assert_eq!(y.dims(), &vec![1, 1, 8]);
}

#[test]
fn patterns_expand() {
    let m = LayerKind::Mamba;
    let a = LayerKind::Attention;
    assert_eq!(LayerPattern::AllMamba.expand(2).unwrap(), vec![m, m]);
    assert_eq!(LayerPattern::AllAttention.expand(2).unwrap(), vec![a, a]);
    assert_eq!(LayerPattern::AttentionAt(vec![2, 0]).expand(4).unwrap(), vec![a, m, a, m]);
    assert_eq!(LayerPattern::Explicit(vec![m, a, a]).expand(5).unwrap(), vec![m, a, a, m, a]);
    let e = LayerPattern::AttentionEvery { period: 0 }.expand(3).unwrap_err();
    assert_eq!(e.message(), "invalid configuration: attention period must be positive");
    let e = LayerPattern::AttentionAt(vec![3]).expand(3).unwrap_err();
    assert_eq!(
        e.message(),
        "invalid configuration: attention index 3 is past the end of a 3-layer stack"
    );
    let e = LayerPattern::Explicit(vec![]).expand(3).unwrap_err();
    assert_eq!(e.message(), "invalid configuration: an explicit pattern cannot be empty");
}

#[test]
fn a_stack_follows_its_pattern() {
    let (mut s, mut st, mut rng) = (Session::new(), Store::new(), Rng::seeded(3));
    let stack = HybridConfig::builder()
        .d_model(8)
        .n_layers(4)
        .pattern(LayerPattern::AttentionEvery { period: 2 })
        .attention(AttentionConfig::new(8, 2))
        .ssm(small())
        .build()
        .unwrap()
        .init(&mut s, &mut st, &mut rng)
        .unwrap();
    let m = LayerKind::Mamba;
    let a = LayerKind::Attention;
    assert_eq!(stack.kinds(), vec![m, a, m, a]);
    assert_eq!(stack.len(), 4);
    assert_eq!(stack.empty_cache(2).len(), 4);
    assert!(matches!(
        HybridConfig::builder().d_model(0).build(),
        Err(Error::Config(_))
    ));
}

#[test]
fn a_language_model_gives_logits() {
    let (mut s, mut st) = (Session::new(), Store::new());
    let lm = model(&mut s, &mut st, false);
    assert_eq!(lm.summary(), "Mamba3Lm(vocab=11, d_model=8, layers=3, tied=false)");
    assert_eq!(lm.layer_kinds()[1], LayerKind::Attention);
    let ids = IdTensor::resident(4, Shape::new(vec![2, 6]));
    let y = lm.forward(&mut s, &mut st, &ids, true).unwrap();
    assert_eq!(y.dims(), &vec![2, 6, 11]);
    assert!(y.is_tracked());
    let loss = y.sum(&mut s);
    let grads = loss.backward(&mut s).unwrap();
    assert_eq!(grads.len(), lm.parameters().len());
    for (name, p) in lm.named_parameters() {
        let g = grads.get(p.id()).unwrap();
        assert_eq!(g.dims(), p.shape(&st).unwrap().dims(), "{}", name);
    }
}

#[test]
fn nothing_is_recorded_outside_training() {
    let (mut s, mut st) = (Session::new(), Store::new());
    let lm = model(&mut s, &mut st, false);
    let ids = IdTensor::resident(4, Shape::new(vec![1, 3]));
    assert!(!lm.hidden(&mut s, &mut st, &ids, false).unwrap().is_tracked());
    assert!(!lm.forward(&mut s, &mut st, &ids, false).unwrap().is_tracked());
    assert!(lm.hidden(&mut s, &mut st, &ids, true).unwrap().is_tracked());
    assert!(mamba3::autograd::grad_mode::is_enabled(&s));
}

#[test]
fn a_tied_model_has_no_head() {
    let (mut s, mut st) = (Session::new(), Store::new());
    let lm = model(&mut s, &mut st, true);
    assert_eq!(lm.summary(), "Mamba3Lm(vocab=11, d_model=8, layers=3, tied=true)");
    let ids = IdTensor::resident(4, Shape::new(vec![1, 3]));
    let y = lm.forward(&mut s, &mut st, &ids, false).unwrap();
    assert_eq!(y.dims(), &vec![1, 3, 11]);
    let (mut s2, mut st2) = (Session::new(), Store::new());
    let untied = model(&mut s2, &mut st2, false);
    let more = untied.num_parameters(&st2).unwrap() - lm.num_parameters(&st).unwrap();
    assert_eq!(more, 8 * 11);
}

#[test]
fn decoding_leaves_no_tape() {
    let (mut s, mut st) = (Session::new(), Store::new());
    let lm = model(&mut s, &mut st, false);
    let mut cache = lm.empty_cache(1);
    let prompt = IdTensor::resident(4, Shape::new(vec![1, 5]));
    let y = lm.forward_cached(&mut s, &mut st, &prompt, &mut cache).unwrap();
    assert_eq!(y.dims(), &vec![1, 5, 11]);
    assert!(!y.is_tracked());
    let one = IdTensor::resident(5, Shape::new(vec![1, 1]));
    let y = lm.forward_cached(&mut s, &mut st, &one, &mut cache).unwrap();
    assert_eq!(y.dims(), &vec![1, 1, 11]);
    assert!(mamba3::autograd::grad_mode::is_enabled(&s));
}

#[test]
fn a_model_can_be_trained_through_adapters() {
    let (mut s, mut st) = (Session::new(), Store::new());
    let lm = Mamba3LmConfig::builder()
        .d_model(8)
        .vocab_size(11)
        .n_layers(1)
        .ssm(small())
        .lora(LoraConfig::builder().rank(2).build().unwrap())
        .build()
        .unwrap()
        .init(&mut s, &mut st)
        .unwrap();
    lm.freeze_matching(&mut st, &vec![]);
    lm.unfreeze_matching(&mut st, &vec![String::from("lora")]);
    let trained = lm.trainable_parameters(&st).len();
    assert!(trained > 0);
    let ids = IdTensor::resident(4, Shape::new(vec![1, 3]));
    let loss = lm.forward(&mut s, &mut st, &ids, true).unwrap().sum(&mut s);
    let grads = loss.backward(&mut s).unwrap();
    assert_eq!(grads.len(), trained);
    lm.merge_lora_adapters(&mut st).unwrap();
}

#[test]
fn a_model_is_checked() {
    let e = Mamba3LmConfig::builder().vocab_size(0).build().unwrap_err();
    assert_eq!(e.message(), "invalid configuration: vocab_size must be positive");
    assert_eq!(Mamba3LmConfig::default().n_layers(), 12);
    assert_eq!(Mamba3LmConfig::default().d_model(), 768);
}

#[test]
fn an_image_model_gives_class_scores() {
    for (pooling, length) in [(Pooling::Mean, 4), (Pooling::ClassToken, 5), (Pooling::Last, 4)] {
        for direction in [ScanDirection::Forward, ScanDirection::Bidirectional] {
            let (mut s, mut st) = (Session::new(), Store::new());
            let config = VisionMamba3Config::builder()
                .image_size(8)
                .patch_size(4)
                .in_channels(3)
                .num_classes(10)
                .n_layers(2)
                .pooling(pooling)
                .direction(direction)
                .with_ssm(|c: &mut SsmConfig| *c = small())
                .d_model(8)
                .build()
                .unwrap();
            assert_eq!(config.sequence_len(), length);
            let m = config.init(&mut s, &mut st).unwrap();
            let y = m.forward(&mut s, &mut st, &input(vec![2, 3, 8, 8])).unwrap();
            assert_eq!(y.dims(), &vec![2, 10]);
            let f = m.features(&mut s, &mut st, &input(vec![2, 3, 8, 8])).unwrap();
            assert_eq!(f.dims(), &vec![2, length, 8]);
            assert_eq!(m.pool(&mut s, &f).unwrap().dims(), &vec![2, 8]);
        }
    }
}

#[test]
fn an_image_model_is_checked() {
    let e = VisionMamba3Config::builder().image_size(9).patch_size(4).build().unwrap_err();
    assert_eq!(
        e.message(),
        "invalid configuration: image size 9 is not divisible by patch size 4"
    );
    assert!(matches!(
        VisionMamba3Config::builder().n_layers(0).build(),
        Err(Error::Config(_))
    ));
}

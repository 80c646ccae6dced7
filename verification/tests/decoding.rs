//! Sampling and generation.

use mamba3::autograd::graph::Session;
use mamba3::error::Error;
use mamba3::infer::cache::StateCache;
use mamba3::infer::generator::{tail_row, Generator, GeneratorConfig};
use mamba3::infer::sampler::{best, divides, pick, SamplerConfig};
use mamba3::models::lm::{Mamba3Lm, Mamba3LmConfig};
use mamba3::nn::store::Store;
use mamba3::ssm::config::SsmConfig;

fn bits(list: &[f32]) -> Vec<u32> {
    list.iter().map(|x| x.to_bits()).collect()
}

fn model(s: &mut Session, st: &mut Store) -> Mamba3Lm {
    let ssm = SsmConfig {
        d_model: 8,
        n_heads: 2,
        n_groups: 2,
        head_dim: 4,
        d_state: 4,
        chunk_size: 4,
        ..SsmConfig::default()
    };
    Mamba3LmConfig::builder()
        .d_model(8)
        .vocab_size(11)
        .n_layers(1)
        .ssm(ssm)
        .build()
        .unwrap()
        .init(s, st)
        .unwrap()
}

#[test]
fn greedy_takes_the_best() {
    assert!(SamplerConfig::greedy().is_greedy());
    assert!(!SamplerConfig::temperature(0.7f32.to_bits()).is_greedy());
    assert!(SamplerConfig::temperature((-1.0f32).to_bits()).is_greedy());
    assert_eq!(best(&bits(&[0.1, 2.0, -1.0])), 1);
    assert_eq!(best(&bits(&[2.0, 2.0, -1.0])), 1);
    assert_eq!(best(&bits(&[])), 0);
}

#[test]
fn rankings_descend_and_are_cut() {
    let scores = bits(&[0.5, -2.0, 3.0, 0.5, 1.0]);
    assert_eq!(SamplerConfig::default().order(&scores), vec![2, 4, 0, 3, 1]);
    assert_eq!(SamplerConfig::default().with_top_k(2).order(&scores), vec![2, 4]);
    assert_eq!(SamplerConfig::default().with_top_k(99).order(&scores).len(), 5);
}

#[test]
fn the_nucleus_is_the_smallest_that_reaches_its_mass() {
    let totals = bits(&[0.5, 0.8, 0.95, 1.0]);
    let at = |p: f32| SamplerConfig::default().with_top_p(p.to_bits()).nucleus(&totals);
    assert_eq!(at(0.7), 2);
    assert_eq!(at(0.8), 2);
    assert_eq!(at(0.4), 1);
    assert_eq!(at(1.0), 4);
    assert_eq!(at(0.999), 4);
}

#[test]
fn penalties_reach_the_history() {
    let s = SamplerConfig::default();
    assert!(s.penalised(&vec![1, 2, 1], 5).is_empty());
    let s = s.with_repetition_penalty(1.2f32.to_bits());
    assert_eq!(s.penalised(&vec![1, 9, 2, 1], 5), vec![1, 2]);
    assert_eq!(s.penalised(&vec![0, 0], 2), vec![0]);
    assert!(s.penalised(&vec![], 2).is_empty());
    assert!(divides(1.0f32.to_bits()));
    assert!(!divides(0.0f32.to_bits()));
    assert!(!divides((-1.0f32).to_bits()));
}

#[test]
fn a_draw_falls_where_the_mass_runs_out() {
    let order = vec![7, 3, 5];
    assert_eq!(pick(&order, &bits(&[-0.1, -0.5, -0.6])), 7);
    assert_eq!(pick(&order, &bits(&[0.3, -0.1, -0.4])), 3);
    assert_eq!(pick(&order, &bits(&[0.3, 0.2, 0.1])), 5);
}

#[test]
fn the_last_row_is_read() {
    assert_eq!(tail_row(&vec![1, 2, 3, 4, 5, 6], 2), vec![5, 6]);
    assert_eq!(tail_row(&vec![1, 2], 2), vec![1, 2]);
}

#[test]
fn a_run_stops_at_its_limit() {
    let (mut s, mut st) = (Session::new(), Store::new());
    let lm = model(&mut s, &mut st);
    let g = Generator::new(&lm, GeneratorConfig::builder().max_new_tokens(2).build());
    let (mut run, logits) = g.begin(&mut s, &mut st, &vec![3, 1, 4], 40).unwrap();
    assert_eq!(logits.dims(), &vec![1, 3, 11]);
    assert_eq!(run.position(), 3);
    assert!(g.wants_token(&run));
    let next = g.push(&mut s, &mut st, &mut run, 5, 41).unwrap().unwrap();
    assert_eq!(next.dims(), &vec![1, 1, 11]);
    assert_eq!(run.position(), 4);
    g.push(&mut s, &mut st, &mut run, 9, 42).unwrap();
    assert!(!g.wants_token(&run));
    assert_eq!(run.history(), &vec![3, 1, 4, 5, 9]);
    assert_eq!(run.into_tokens(), vec![5, 9]);
}

#[test]
fn a_stop_token_ends_a_run() {
    let (mut s, mut st) = (Session::new(), Store::new());
    let lm = model(&mut s, &mut st);
    let config = GeneratorConfig::builder().max_new_tokens(9).eos_token(2).build();
    let g = Generator::new(&lm, config);
    let (mut run, _) = g.begin(&mut s, &mut st, &vec![3], 40).unwrap();
    assert!(g.push(&mut s, &mut st, &mut run, 7, 41).unwrap().is_some());
    assert!(g.push(&mut s, &mut st, &mut run, 2, 42).unwrap().is_none());
    assert!(!g.wants_token(&run));
    assert_eq!(run.generated(), &vec![7, 2]);
}

#[test]
fn an_empty_prompt_is_refused() {
    let (mut s, mut st) = (Session::new(), Store::new());
    let lm = model(&mut s, &mut st);
    let g = Generator::new(&lm, GeneratorConfig::builder().build());
    assert!(matches!(g.begin(&mut s, &mut st, &vec![], 40), Err(Error::Config(_))));
    assert_eq!(g.sampler(), &SamplerConfig::default());
}

#[test]
fn a_cache_starts_empty() {
    let (mut s, mut st) = (Session::new(), Store::new());
    let lm = model(&mut s, &mut st);
    let mut cache = StateCache::new(&lm, 2);
    assert_eq!(cache.position(), 0);
    assert_eq!(cache.layers_mut().len(), 1);
}

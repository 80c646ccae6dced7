//! Layer patterns.

use mamba3::models::pattern::{LayerKind, LayerPattern};

#[test]
fn periodic_pattern_has_four_attention_layers() {
    let pattern = LayerPattern::AttentionEvery { period: 6 };
    let kinds = pattern.expand(24).unwrap();
    assert_eq!(kinds.len(), 24);
    let attention: Vec<usize> =
        (0..24).filter(|i| kinds[*i] == LayerKind::Attention).collect();
    assert_eq!(attention, vec![5, 11, 17, 23]);
}

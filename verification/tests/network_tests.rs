use leaf::error::NetworkError;
use leaf::layer::{LayerConfig, LayerKind, LayerRule};
use leaf::network::{Network, NetworkConfig, NetworkMode, NetworkState};
use leaf::tensor::Tensor;
use leaf::weight::{DimCheckMode, FillerType, WeightConfig};

fn linear_config(name: &str, bottom: &str, top: &str, out: usize, wc: Vec<WeightConfig>) -> LayerConfig {
    LayerConfig {
        name: String::from(name),
        kind: LayerKind::Linear { output_size: out },
        bottoms: vec![String::from(bottom)],
        tops: vec![String::from(top)],
        weights: wc,
        propagate_down: vec![],
        include_rules: vec![],
        exclude_rules: vec![],
    }
}

fn relu_config(name: &str, bottom: &str, top: &str) -> LayerConfig {
    LayerConfig {
        name: String::from(name),
        kind: LayerKind::Relu,
        bottoms: vec![String::from(bottom)],
        tops: vec![String::from(top)],
        weights: vec![],
        propagate_down: vec![],
        include_rules: vec![],
        exclude_rules: vec![],
    }
}

fn loss_config(name: &str, bottom: &str, top: &str, target: Vec<i64>) -> LayerConfig {
    LayerConfig {
        name: String::from(name),
        kind: LayerKind::AbsSumLoss { target },
        bottoms: vec![String::from(bottom)],
        tops: vec![String::from(top)],
        weights: vec![],
        propagate_down: vec![],
        include_rules: vec![],
        exclude_rules: vec![],
    }
}

fn ones_weight() -> WeightConfig {
    WeightConfig {
        name: String::new(),
        share_mode: DimCheckMode::Strict,
        lr_mult: None,
        decay_mult: None,
        filler: Some(FillerType::Constant { value: 1 }),
    }
}

/// A two-layer network: input [1,4] -> linear to [1,2] -> loss vs [1,2].
fn two_layer_config() -> NetworkConfig {
    let mut config = NetworkConfig::default();
    config.add_input("data", &vec![1, 4]);
    config.add_layer(linear_config("fc", "data", "fc_out", 2, vec![ones_weight()]));
    config.add_layer(loss_config("loss", "fc_out", "loss_out", vec![1, 2]));
    config
}

#[test]
fn two_layer_network_builds() {
    let net = Network::from_config(&two_layer_config()).unwrap();
    assert_eq!(net.layers.len(), 2);
    assert_eq!(net.blob_names.len(), 3);
    assert_eq!(net.learnable_weight_ids.len(), 1);
    // output inference: only the loss output is never consumed
    assert_eq!(net.output_blob_ids.len(), 1);
    assert_eq!(net.blob_names[net.output_blob_ids[0]], "loss_out");
}

#[test]
fn forward_backward_end_to_end() {
    // x = [1,2,3,4], W all ones -> y = [10,10]; target [1,2] -> loss 9+8=17
    let mut net = Network::from_config(&two_layer_config()).unwrap();
    let x = Tensor::from_values(&vec![1, 4], vec![1, 2, 3, 4]).unwrap();
    let loss = net.forward_backward(&vec![x]);
    assert_eq!(loss, 17);
    assert!(loss >= 0);
    let fc_out = net.get_data("fc_out").unwrap();
    assert_eq!(fc_out.data, vec![10, 10]);
    let loss_out = net.get_data("loss_out").unwrap();
    assert_eq!(loss_out.data, vec![17]);
}

#[test]
fn update_weights_applies_negative_gradient_exactly() {
    let mut net = Network::from_config(&two_layer_config()).unwrap();
    let x = Tensor::from_values(&vec![1, 4], vec![1, 2, 3, 4]).unwrap();
    net.forward_backward(&vec![x]);
    // loss gradient into fc_out is sign(y - t) = [1, 1]; the weight gradient
    // row o is x itself, for both rows
    let grads = net.learnable_weight_gradients();
    assert_eq!(grads[0].data, vec![1, 2, 3, 4, 1, 2, 3, 4]);
    net.update_weights();
    let data = net.learnable_weight_data();
    assert_eq!(data[0].data, vec![0, -1, -2, -3, 0, -1, -2, -3]);
}

#[test]
fn gradient_reset_round_trip() {
    let mut net = Network::from_config(&two_layer_config()).unwrap();
    // fresh gradients read as all zero
    for g in net.learnable_weight_gradients() {
        assert!(g.data.iter().all(|v| *v == 0));
    }
    let x = Tensor::from_values(&vec![1, 4], vec![1, 2, 3, 4]).unwrap();
    net.forward_backward(&vec![x]);
    // after one backward with nonzero upstream, some gradient is nonzero
    let nonzero = net.learnable_weight_gradients().iter().any(|g| g.data.iter().any(|v| *v != 0));
    assert!(nonzero);
    net.clear_weight_diffs();
    for g in net.learnable_weight_gradients() {
        assert!(g.data.iter().all(|v| *v == 0));
    }
}

#[test]
fn forward_is_deterministic() {
    let mut net = Network::from_config(&two_layer_config()).unwrap();
    let x = Tensor::from_values(&vec![1, 4], vec![3, -1, 4, -5]).unwrap();
    let mut loss1: i64 = 0;
    let out1 = net.forward(&vec![x.duplicate()], &mut loss1);
    let mut loss2: i64 = 0;
    let out2 = net.forward(&vec![x], &mut loss2);
    assert_eq!(loss1, loss2);
    assert_eq!(out1.len(), out2.len());
    for (a, b) in out1.iter().zip(out2.iter()) {
        assert_eq!(a.data, b.data);
    }
}

#[test]
fn duplicate_input_is_rejected() {
    let mut config = NetworkConfig::default();
    config.add_input("a", &vec![1]);
    config.add_input("a", &vec![2]);
    match Network::from_config(&config) {
        Err(NetworkError::DuplicateInput { name }) => assert_eq!(name, "a"),
        _ => panic!("expected a duplicate-input error"),
    }
}

#[test]
fn missing_bottom_is_rejected() {
    let mut config = NetworkConfig::default();
    config.add_input("a", &vec![1, 2]);
    config.add_layer(relu_config("r", "nope", "r_out"));
    match Network::from_config(&config) {
        Err(NetworkError::MissingBottom { layer, name }) => {
            assert_eq!(layer, "r");
            assert_eq!(name, "nope");
        }
        _ => panic!("expected a missing-bottom error"),
    }
}

#[test]
fn duplicate_top_is_rejected() {
    let mut config = NetworkConfig::default();
    config.add_input("a", &vec![1, 2]);
    config.add_input("b", &vec![1, 2]);
    let mut r = relu_config("r", "a", "b");
    r.tops = vec![String::from("b")];
    config.add_layer(r);
    match Network::from_config(&config) {
        Err(NetworkError::DuplicateTop { layer, name }) => {
            assert_eq!(layer, "r");
            assert_eq!(name, "b");
        }
        _ => panic!("expected a duplicate-top error"),
    }
}

#[test]
fn invalid_layer_structure_is_rejected() {
    let mut config = NetworkConfig::default();
    config.add_input("a", &vec![1, 2]);
    let mut bad = relu_config("r", "a", "r_out");
    bad.bottoms = vec![String::from("a"), String::from("a")];
    config.add_layer(bad);
    match Network::from_config(&config) {
        Err(NetworkError::InvalidLayer { layer }) => assert_eq!(layer, "r"),
        _ => panic!("expected an invalid-layer error"),
    }
}

#[test]
fn loss_target_length_must_match() {
    let mut config = NetworkConfig::default();
    config.add_input("a", &vec![1, 2]);
    config.add_layer(loss_config("loss", "a", "l_out", vec![1, 2, 3]));
    assert!(matches!(
        Network::from_config(&config),
        Err(NetworkError::InvalidLayer { .. })
    ));
}

#[test]
fn in_place_rectifier_reuses_the_buffer() {
    let mut config = NetworkConfig::default();
    config.add_input("x", &vec![1, 3]);
    config.add_layer(relu_config("r", "x", "x"));
    let mut net = Network::from_config(&config).unwrap();
    assert_eq!(net.layers[0].bottoms, net.layers[0].tops);
    assert_eq!(net.layers[0].in_place, vec![true]);
    let x = Tensor::from_values(&vec![1, 3], vec![-1, 0, 5]).unwrap();
    let mut loss: i64 = 0;
    net.forward(&vec![x], &mut loss);
    assert_eq!(net.get_data("x").unwrap().data, vec![0, 0, 5]);
    // consumed in place and re-produced: still the network's output
    assert_eq!(net.output_blob_ids, vec![0]);
}

#[test]
fn output_inference_on_a_chain() {
    let mut config = NetworkConfig::default();
    config.add_input("a", &vec![1, 2]);
    config.add_layer(relu_config("rb", "a", "b"));
    config.add_layer(relu_config("rc", "b", "c"));
    let net = Network::from_config(&config).unwrap();
    assert_eq!(net.output_blob_ids.len(), 1);
    assert_eq!(net.blob_names[net.output_blob_ids[0]], "c");
}

fn shared_weight(name: &str, mode: DimCheckMode) -> WeightConfig {
    WeightConfig {
        name: String::from(name),
        share_mode: mode,
        lr_mult: Some(2),
        decay_mult: Some(3),
        filler: Some(FillerType::Constant { value: 1 }),
    }
}

#[test]
fn weight_sharing_same_shape_aliases_storage() {
    let mut config = NetworkConfig::default();
    config.add_input("data", &vec![1, 4]);
    config.add_layer(linear_config("fc1", "data", "o1", 2, vec![shared_weight("w", DimCheckMode::Strict)]));
    config.add_layer(linear_config("fc2", "data", "o2", 2, vec![shared_weight("w", DimCheckMode::Strict)]));
    let net = Network::from_config(&config).unwrap();
    assert_eq!(net.weights.len(), 2);
    assert_eq!(net.weight_owners[0], None);
    assert_eq!(net.weight_owners[1], Some(0));
    // both reference the same underlying storage slot
    assert_eq!(net.weights[0], net.weights[1]);
    // only the owner is learnable
    assert_eq!(net.learnable_weight_ids, vec![0]);
    assert_eq!(net.weight_display_names[0], "w");
    assert_eq!(net.weight_display_names[1], "w");
}

#[test]
fn weight_sharing_update_is_observable_through_both() {
    let mut config = NetworkConfig::default();
    config.add_input("data", &vec![1, 2]);
    config.add_layer(linear_config("fc1", "data", "o1", 2, vec![shared_weight("w", DimCheckMode::Strict)]));
    config.add_layer(linear_config("fc2", "data", "o2", 2, vec![shared_weight("w", DimCheckMode::Strict)]));
    config.add_layer(loss_config("loss", "o1", "l", vec![0, 0]));
    let mut net = Network::from_config(&config).unwrap();
    let x = Tensor::from_values(&vec![1, 2], vec![1, 1]).unwrap();
    net.forward_backward(&vec![x.duplicate()]);
    net.update_weights();
    // the shared storage changed; a fresh forward through fc2 sees it too
    let mut loss: i64 = 0;
    net.forward(&vec![x], &mut loss);
    let o1 = net.get_data("o1").unwrap();
    let o2 = net.get_data("o2").unwrap();
    assert_eq!(o1.data, o2.data);
    assert_ne!(o1.data, vec![2, 2]); // no longer the all-ones weight
}

#[test]
fn weight_sharing_strict_mismatch_fails() {
    let mut config = NetworkConfig::default();
    config.add_input("data", &vec![1, 4]);
    config.add_layer(linear_config("fc1", "data", "o1", 2, vec![shared_weight("w", DimCheckMode::Strict)]));
    config.add_layer(linear_config("fc2", "data", "o2", 3, vec![shared_weight("w", DimCheckMode::Strict)]));
    match Network::from_config(&config) {
        Err(NetworkError::ShareMismatch { weight, owner_layer, layer, expected, actual }) => {
            assert_eq!(weight, "w");
            assert_eq!(owner_layer, "fc1");
            assert_eq!(layer, "fc2");
            assert_eq!(expected, vec![2, 4]);
            assert_eq!(actual, vec![3, 4]);
        }
        _ => panic!("expected a share-mismatch error"),
    }
}

#[test]
fn weight_sharing_permissive_allows_equal_counts() {
    // [2,4] and [4,2] share 8 elements under permissive checking
    let mut config = NetworkConfig::default();
    config.add_input("a", &vec![1, 4]);
    config.add_input("b", &vec![1, 2]);
    config.add_layer(linear_config("fc1", "a", "o1", 2, vec![shared_weight("w", DimCheckMode::Strict)]));
    config.add_layer(linear_config("fc2", "b", "o2", 4, vec![shared_weight("w", DimCheckMode::Permissive)]));
    let net = Network::from_config(&config).unwrap();
    assert_eq!(net.weights[1], net.weights[0]);
    // and under strict checking the same shapes are refused
    let mut strict = NetworkConfig::default();
    strict.add_input("a", &vec![1, 4]);
    strict.add_input("b", &vec![1, 2]);
    strict.add_layer(linear_config("fc1", "a", "o1", 2, vec![shared_weight("w", DimCheckMode::Strict)]));
    strict.add_layer(linear_config("fc2", "b", "o2", 4, vec![shared_weight("w", DimCheckMode::Strict)]));
    assert!(matches!(
        Network::from_config(&strict),
        Err(NetworkError::ShareMismatch { .. })
    ));
}

#[test]
fn frozen_branch_skips_backward_and_keeps_gradients() {
    // fc's output feeds nothing on the loss path: the loss reads the input
    // directly, so fc must skip backward and its gradient stays zero
    let mut config = NetworkConfig::default();
    config.add_input("data", &vec![1, 2]);
    config.add_layer(linear_config("fc", "data", "side", 2, vec![ones_weight()]));
    config.add_layer(loss_config("loss", "data", "l", vec![0, 0]));
    let mut net = Network::from_config(&config).unwrap();
    assert!(net.layers[0].skip_backward);
    assert!(!net.layers[1].skip_backward);
    let x = Tensor::from_values(&vec![1, 2], vec![5, -7]).unwrap();
    net.forward_backward(&vec![x]);
    let grads = net.learnable_weight_gradients();
    assert!(grads[0].data.iter().all(|v| *v == 0));
}

#[test]
fn force_backward_overrides_skipping() {
    let mut config = NetworkConfig::default();
    config.add_input("data", &vec![1, 2]);
    config.add_layer(linear_config("fc", "data", "side", 2, vec![ones_weight()]));
    config.add_layer(loss_config("loss", "data", "l", vec![0, 0]));
    config.force_backward = true;
    let net = Network::from_config(&config).unwrap();
    assert!(!net.layers[0].skip_backward);
    assert!(!net.layers[1].skip_backward);
}

#[test]
fn propagate_down_cuts_the_gradient() {
    let mut config = NetworkConfig::default();
    config.add_input("data", &vec![1, 2]);
    let mut loss = loss_config("loss", "data", "l", vec![0, 0]);
    loss.propagate_down = vec![false];
    config.add_layer(loss);
    let mut net = Network::from_config(&config).unwrap();
    assert!(net.layers[0].skip_backward);
    let x = Tensor::from_values(&vec![1, 2], vec![5, -7]).unwrap();
    net.forward_backward(&vec![x]);
    // the input's gradient buffer was never written
    assert_eq!(net.blobs_gradient[0].data, vec![0, 0]);
}

#[test]
fn state_rules_include_and_exclude_layers() {
    let mut config = NetworkConfig::default();
    config.add_input("a", &vec![1, 2]);
    let mut train_only = relu_config("r", "a", "b");
    train_only.include_rules = vec![LayerRule {
        mode: Some(NetworkMode::Train),
        min_level: None,
        max_level: None,
        stages: vec![],
    }];
    config.add_layer(train_only);
    // default state is Test: the layer is excluded
    let net = Network::from_config(&config).unwrap();
    assert_eq!(net.layers.len(), 0);
    assert_eq!(net.output_blob_ids, vec![0]);
    // in Train mode it is included
    config.state = NetworkState { mode: NetworkMode::Train, level: 0, stage: vec![] };
    let net = Network::from_config(&config).unwrap();
    assert_eq!(net.layers.len(), 1);
}

#[test]
fn level_and_stage_rules() {
    let mut config = NetworkConfig::default();
    config.add_input("a", &vec![1, 2]);
    let mut gated = relu_config("r", "a", "b");
    gated.exclude_rules = vec![LayerRule {
        mode: None,
        min_level: Some(3),
        max_level: None,
        stages: vec![String::from("deploy")],
    }];
    config.add_layer(gated);
    config.state = NetworkState {
        mode: NetworkMode::Test,
        level: 5,
        stage: vec![String::from("deploy")],
    };
    // the exclude rule matches: layer dropped
    let net = Network::from_config(&config).unwrap();
    assert_eq!(net.layers.len(), 0);
    config.state.level = 1;
    // level below the rule's minimum: rule does not match, layer kept
    let net = Network::from_config(&config).unwrap();
    assert_eq!(net.layers.len(), 1);
}

#[test]
fn input_count_mismatch_is_rejected() {
    let mut config = NetworkConfig::default();
    config.inputs.push(String::from("a"));
    assert!(matches!(
        Network::from_config(&config),
        Err(NetworkError::InputCountMismatch)
    ));
}

#[test]
fn get_data_finds_registered_buffers_only() {
    let net = Network::from_config(&two_layer_config()).unwrap();
    assert!(net.get_data("data").is_some());
    assert!(net.get_data("fc_out").is_some());
    assert!(net.get_data("absent").is_none());
}

#[test]
fn config_accessors() {
    let mut config = NetworkConfig::default();
    config.add_input("a", &vec![2, 3]);
    config.add_layer(relu_config("r", "a", "b"));
    assert_eq!(config.input(0), Some(&String::from("a")));
    assert_eq!(config.input(1), None);
    assert_eq!(config.input_shape(0), Some(&vec![2, 3]));
    assert!(config.input_shape(7).is_none());
    assert_eq!(config.layer(0).unwrap().name, "r");
    assert!(config.layer(1).is_none());
}

#[test]
fn weight_multiplier_defaults_and_overrides() {
    let wc = WeightConfig::default();
    assert_eq!(wc.lr_mult(), 1);
    assert_eq!(wc.decay_mult(), 1);
    let mut config = NetworkConfig::default();
    config.add_input("data", &vec![1, 2]);
    config.add_layer(linear_config("fc", "data", "o", 2, vec![shared_weight("w", DimCheckMode::Strict)]));
    let net = Network::from_config(&config).unwrap();
    assert_eq!(net.weights_lr(), &vec![Some(2)]);
    assert_eq!(net.weights_weight_decay(), &vec![Some(3)]);
}

#[test]
fn check_dimensions_reports_both_sides() {
    let one = Tensor::from_values(&vec![2, 3], vec![0; 6]).unwrap();
    let two = Tensor::from_values(&vec![3, 2], vec![0; 6]).unwrap();
    let strict = WeightConfig::default();
    let r = strict.check_dimensions(
        &one,
        &two,
        &String::from("w"),
        &String::from("owner"),
        &String::from("sharer"),
    );
    match r {
        Err(NetworkError::ShareMismatch { expected, actual, .. }) => {
            assert_eq!(expected, vec![3, 2]);
            assert_eq!(actual, vec![2, 3]);
        }
        _ => panic!("expected a mismatch under strict checking"),
    }
    let mut permissive = WeightConfig::default();
    permissive.share_mode = DimCheckMode::Permissive;
    assert!(permissive
        .check_dimensions(&one, &two, &String::from("w"), &String::from("o"), &String::from("s"))
        .is_ok());
}

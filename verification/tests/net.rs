use card_engine::neural_net::{
    layer_offsets, net_num_parameters, num_inputs, num_outputs, shape_valid, ActivationFunction,
    LayerDesc,
};

#[test]
fn layer_parameter_counts() {
    let l = LayerDesc::new(5, 3, ActivationFunction::Sigmoid);
    assert_eq!(l.num_inputs, 5);
    assert_eq!(l.num_outputs, 3);
    assert_eq!(l.activation, ActivationFunction::Sigmoid);
    // Three rows of five weights plus a bias each.
    assert_eq!(l.num_parameters(), Some(18));
    let wide = LayerDesc::new(usize::MAX, 2, ActivationFunction::Linear);
    assert_eq!(wide.num_parameters(), None);
}

#[test]
fn network_shape_and_layout() {
    let descs = vec![
        LayerDesc::new(5, 3, ActivationFunction::Sigmoid),
        LayerDesc::new(3, 1, ActivationFunction::Sigmoid),
    ];
    assert!(shape_valid(&descs));
    assert_eq!(net_num_parameters(&descs), Some(22));
    assert_eq!(layer_offsets(&descs), Some(vec![0, 18]));
    assert_eq!(num_inputs(&descs), 5);
    assert_eq!(num_outputs(&descs), 1);

    let broken = vec![
        LayerDesc::new(5, 3, ActivationFunction::Sigmoid),
        LayerDesc::new(4, 1, ActivationFunction::Sigmoid),
    ];
    assert!(!shape_valid(&broken));

    let q_net = vec![
        LayerDesc::new(315, 100, ActivationFunction::SymmetricSigmoid),
        LayerDesc::new(100, 1, ActivationFunction::Sigmoid),
    ];
    assert!(shape_valid(&q_net));
    assert_eq!(net_num_parameters(&q_net), Some(315 * 100 + 100 + 101));
}

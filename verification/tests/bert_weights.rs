use ribn::bert::config::BertConfig;
use ribn::bert::weights::{
    supply, HostWeights, TensorData, TensorFailure, TensorRequirement, WeightError, WeightLoader,
};
use ribn::engine::single::Single;
use ribn::foundation::parameter::ScalarType;

fn config() -> BertConfig {
    BertConfig {
        vocab_size: 13,
        hidden_size: 12,
        num_hidden_layers: 2,
        num_attention_heads: 3,
        intermediate_size: 20,
        max_position_embeddings: 16,
        type_vocab_size: 3,
        layer_norm_eps: Single::from_bits(1.0e-12_f32.to_bits()),
    }
}

/// A tensor of the required shape that holds `first`, `first + 1`, and so on.
fn tensor(required: &TensorRequirement, first: u32) -> TensorData {
    let values: usize = required.shape.iter().product();
    let mut data = Vec::new();
    for value in 0..values {
        data.extend((first as f32 + value as f32).to_le_bytes());
    }
    TensorData {
        scalar_type: ScalarType::F32,
        shape: required.shape.clone(),
        data,
    }
}

fn load(config: BertConfig) -> (Vec<TensorRequirement>, HostWeights) {
    let mut loader = WeightLoader::new(config);
    let mut inventory = Vec::new();
    while let Some(required) = loader.next_requirement() {
        let found = tensor(&required, 1000 * inventory.len() as u32);
        loader.supply_next(Ok(found)).expect("tensor");
        inventory.push(required);
    }
    (inventory, loader.finish())
}

fn value(single: Single) -> f32 {
    f32::from_bits(single.bits)
}

#[test]
fn fixture_package_supplies_every_parameter() {
    let (_, weights) = load(config());

    assert_eq!(weights.word_embeddings.len(), 13 * 12);
    assert_eq!(weights.position_embeddings.len(), 16 * 12);
    assert_eq!(weights.token_type_embeddings.len(), 3 * 12);
    assert_eq!(weights.layers.len(), 2);
    assert_eq!(weights.embedding_norm.weight.len(), 12);
    assert_eq!(weights.pooler.weight.len(), 12 * 12);
    for layer in &weights.layers {
        assert_eq!(layer.query.output, 12);
        assert_eq!(layer.query.offset(11, 11), 143);
        assert_eq!(layer.intermediate.input, 12);
        assert_eq!(layer.intermediate.output, 20);
        assert_eq!(layer.output.input, 20);
        assert_eq!(layer.output.output, 12);
    }
    assert!(weights
        .word_embeddings
        .iter()
        .any(|found| value(*found) != 0.0));
    assert_eq!(weights.check(&config()), Ok(()));
}

#[test]
fn parameters_are_named_in_loading_order() {
    let (inventory, weights) = load(config());
    let names: Vec<&str> = inventory
        .iter()
        .map(|required| required.name.as_str())
        .collect();
    assert_eq!(names.len(), 5 + 2 * 16 + 2);
    assert_eq!(names[0], "embeddings.word_embeddings.weight");
    assert_eq!(names[4], "embeddings.LayerNorm.bias");
    assert_eq!(names[5], "encoder.layer.0.attention.self.query.weight");
    assert_eq!(names[14], "encoder.layer.0.attention.output.LayerNorm.bias");
    assert_eq!(names[15], "encoder.layer.0.intermediate.dense.weight");
    assert_eq!(names[17], "encoder.layer.0.output.dense.weight");
    assert_eq!(names[36], "encoder.layer.1.output.LayerNorm.bias");
    assert_eq!(names[37], "pooler.dense.weight");
    assert_eq!(names[38], "pooler.dense.bias");
    assert_eq!(inventory[15].shape, vec![20, 12]);
    assert_eq!(inventory[17].shape, vec![12, 20]);
    assert_eq!(inventory[16].shape, vec![20]);
    let mut distinct = names.clone();
    distinct.sort_unstable();
    distinct.dedup();
    assert_eq!(distinct.len(), names.len());
    // Each parameter went where its name says.
    assert_eq!(value(weights.word_embeddings[3]), 3.0);
    assert_eq!(value(weights.embedding_norm.bias[1]), 4001.0);
    assert_eq!(value(weights.layers[0].query.weight[0]), 5000.0);
    assert_eq!(value(weights.layers[0].intermediate.bias[19]), 16019.0);
    assert_eq!(value(weights.layers[1].output_norm.bias[0]), 36000.0);
    assert_eq!(value(weights.pooler.bias[0]), 38000.0);
}

#[test]
fn unusable_tensors_are_refused_by_name() {
    let mut loader = WeightLoader::new(config());
    let name = "embeddings.word_embeddings.weight".to_owned();
    assert_eq!(
        loader.supply_next(Err(TensorFailure::UnknownParameter)),
        Err(WeightError::Missing(name.clone()))
    );
    assert_eq!(
        loader.supply_next(Err(TensorFailure::Package("unreadable".to_owned()))),
        Err(WeightError::Package("unreadable".to_owned()))
    );
    let required = loader.next_requirement().expect("first parameter");
    let mut half = tensor(&required, 0);
    half.scalar_type = ScalarType::F16;
    assert_eq!(
        loader.supply_next(Ok(half)),
        Err(WeightError::Dtype {
            parameter: name.clone()
        })
    );
    let mut turned = tensor(&required, 0);
    turned.shape = vec![12, 13];
    assert_eq!(
        loader.supply_next(Ok(turned)),
        Err(WeightError::Shape {
            parameter: name.clone(),
            expected: vec![13, 12],
            found: vec![12, 13]
        })
    );
    let mut short = tensor(&required, 0);
    short.data.truncate(8);
    assert_eq!(
        loader.supply_next(Ok(short)),
        Err(WeightError::Length {
            parameter: name,
            expected: 156,
            found: 2
        })
    );
    loader
        .supply_next(Ok(tensor(&required, 0)))
        .expect("the loader still waits for it");
}

#[test]
fn payloads_are_little_endian() {
    let required = TensorRequirement {
        name: "p".to_owned(),
        shape: vec![2],
    };
    let found = TensorData {
        scalar_type: ScalarType::F32,
        shape: vec![2],
        data: vec![0x00, 0x00, 0x80, 0x3F, 0x78, 0x56, 0x34, 0xC2],
    };
    assert_eq!(
        supply(required, Ok(found)),
        Ok(vec![
            Single::from_bits(0x3F80_0000),
            Single::from_bits(0xC234_5678)
        ])
    );
}

#[test]
fn weights_are_held_to_their_configuration() {
    let (_, weights) = load(config());
    let mut wider = config();
    wider.vocab_size = 14;
    assert_eq!(
        weights.check(&wider),
        Err(WeightError::Length {
            parameter: "embeddings.word_embeddings.weight".to_owned(),
            expected: 168,
            found: 156
        })
    );
    let mut deeper = config();
    deeper.num_hidden_layers = 3;
    assert_eq!(
        weights.check(&deeper),
        Err(WeightError::Missing(
            "encoder.layer.2.attention.self.query.weight".to_owned()
        ))
    );
    let mut shallower = config();
    shallower.num_hidden_layers = 1;
    assert_eq!(
        weights.check(&shallower),
        Err(WeightError::Length {
            parameter: "encoder.layer".to_owned(),
            expected: 1,
            found: 2
        })
    );
    let mut turned = weights;
    let dense = &mut turned.layers[0].intermediate;
    (dense.input, dense.output) = (dense.output, dense.input);
    assert_eq!(
        turned.check(&config()),
        Err(WeightError::Shape {
            parameter: "encoder.layer.0.intermediate.dense.weight".to_owned(),
            expected: vec![20, 12],
            found: vec![12, 20]
        })
    );
}

#[test]
fn counts_beyond_the_machine_match_no_weights() {
    let (_, weights) = load(config());
    let mut endless = config();
    endless.num_hidden_layers = usize::MAX;
    assert_eq!(
        weights.check(&endless),
        Err(WeightError::Missing(
            "encoder.layer.2.attention.self.query.weight".to_owned()
        ))
    );
    let mut vast = config();
    vast.vocab_size = usize::MAX;
    assert_eq!(
        weights.check(&vast),
        Err(WeightError::Length {
            parameter: "embeddings.word_embeddings.weight".to_owned(),
            expected: usize::MAX,
            found: 156
        })
    );

    let mut loader = WeightLoader::new(vast);
    let required = loader.next_requirement().expect("requirement");
    assert_eq!(required.shape, vec![usize::MAX, 12]);
    assert_eq!(
        loader.supply_next(Ok(TensorData {
            scalar_type: ScalarType::F32,
            shape: vec![13, 12],
            data: Vec::new(),
        })),
        Err(WeightError::Shape {
            parameter: "embeddings.word_embeddings.weight".to_owned(),
            expected: vec![usize::MAX, 12],
            found: vec![13, 12]
        })
    );
    assert_eq!(
        loader.supply_next(Ok(TensorData {
            scalar_type: ScalarType::F32,
            shape: vec![usize::MAX, 12],
            data: vec![0; 8],
        })),
        Err(WeightError::Length {
            parameter: "embeddings.word_embeddings.weight".to_owned(),
            expected: usize::MAX,
            found: 2
        })
    );
}

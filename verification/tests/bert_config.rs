use ribn::bert::config::{BertConfig, ConfigError, ConfigField, ConfigFields};
use ribn::engine::single::Single;
use serde_json::{Number, Value};

fn single(value: f32) -> Single {
    Single::from_bits(value.to_bits())
}

fn float(value: f64) -> Value {
    Value::Number(Number::from_f64(value).expect("finite"))
}

fn config(overrides: &[(&str, Value)]) -> Value {
    let mut fields = serde_json::Map::new();
    fields.insert("model_type".to_owned(), Value::from("bert"));
    fields.insert("hidden_act".to_owned(), Value::from("gelu"));
    fields.insert("vocab_size".to_owned(), Value::from(13));
    fields.insert("hidden_size".to_owned(), Value::from(12));
    fields.insert("num_hidden_layers".to_owned(), Value::from(2));
    fields.insert("num_attention_heads".to_owned(), Value::from(3));
    fields.insert("intermediate_size".to_owned(), Value::from(20));
    fields.insert("max_position_embeddings".to_owned(), Value::from(16));
    fields.insert("type_vocab_size".to_owned(), Value::from(3));
    fields.insert("layer_norm_eps".to_owned(), float(1.0e-12));
    for (key, replacement) in overrides {
        fields.insert((*key).to_owned(), replacement.clone());
    }
    Value::Object(fields)
}

#[test]
fn reads_the_fixture_geometry() {
    let parsed = BertConfig::from_json(&config(&[])).unwrap();
    assert_eq!(parsed.hidden_size, 12);
    assert_eq!(parsed.num_hidden_layers, 2);
    assert_eq!(parsed.head_width(), 4);
    assert!((f32::from_bits(parsed.layer_norm_eps.bits) - 1.0e-12).abs() < f32::EPSILON);
    assert_eq!(parsed.layer_norm_eps, single(1.0e-12));
}

#[test]
fn rejects_geometry_that_cannot_execute() {
    assert!(matches!(
        BertConfig::from_json(&config(&[("model_type", Value::from("roberta"))])).unwrap_err(),
        ConfigError::UnsupportedModelType(_)
    ));
    assert!(matches!(
        BertConfig::from_json(&config(&[("hidden_act", Value::from("relu"))])).unwrap_err(),
        ConfigError::UnsupportedActivation(_)
    ));
    assert!(matches!(
        BertConfig::from_json(&config(&[("num_attention_heads", Value::from(5))])).unwrap_err(),
        ConfigError::IndivisibleHeads { .. }
    ));
    assert!(matches!(
        BertConfig::from_json(&config(&[("hidden_size", Value::from(0))])).unwrap_err(),
        ConfigError::NonPositive
    ));
    assert!(matches!(
        BertConfig::from_json(&config(&[("layer_norm_eps", float(0.0))])).unwrap_err(),
        ConfigError::InvalidField { .. }
    ));
    let missing = config(&[]);
    let mut missing = missing.as_object().unwrap().clone();
    missing.remove("vocab_size");
    assert!(matches!(
        BertConfig::from_json(&Value::Object(missing)).unwrap_err(),
        ConfigError::MissingField("vocab_size")
    ));
    assert!(matches!(
        BertConfig::from_json(&config(&[("hidden_size", Value::from("twelve"))])).unwrap_err(),
        ConfigError::InvalidField { .. }
    ));
}

#[test]
fn unsupported_architecture_is_named_rather_than_inferred() {
    let config = config(&[("model_type", Value::from("roberta"))]);
    assert_eq!(
        BertConfig::from_json(&config),
        Err(ConfigError::UnsupportedModelType("roberta".to_owned()))
    );
    assert_eq!(
        BertConfig::from_json(&Value::Array(vec![config])),
        Err(ConfigError::UnsupportedModelType("<absent>".to_owned()))
    );
    assert_eq!(
        BertConfig::from_json(&Value::Null),
        Err(ConfigError::UnsupportedModelType("<absent>".to_owned()))
    );
}

#[test]
fn unusable_fields_are_shown_as_they_were_written() {
    assert_eq!(
        BertConfig::from_json(&config(&[("hidden_size", Value::from("twelve"))])),
        Err(ConfigError::InvalidField {
            field: "hidden_size",
            value: "\"twelve\"".to_owned()
        })
    );
    assert_eq!(
        BertConfig::from_json(&config(&[("vocab_size", Value::from(-3))])),
        Err(ConfigError::InvalidField {
            field: "vocab_size",
            value: "-3".to_owned()
        })
    );
    assert_eq!(
        BertConfig::from_json(&config(&[("layer_norm_eps", float(-0.5))])),
        Err(ConfigError::InvalidField {
            field: "layer_norm_eps",
            value: "-0.5".to_owned()
        })
    );
    // Narrowing overflows to infinity, and below the smallest value to zero.
    assert_eq!(
        BertConfig::from_json(&config(&[("layer_norm_eps", float(1.0e40))])),
        Err(ConfigError::InvalidField {
            field: "layer_norm_eps",
            value: 1.0e40_f64.to_string()
        })
    );
    assert!(BertConfig::from_json(&config(&[("layer_norm_eps", float(1.0e-50))])).is_err());
    assert_eq!(
        BertConfig::from_json(&config(&[("layer_norm_eps", Value::from(true))])),
        Err(ConfigError::InvalidField {
            field: "layer_norm_eps",
            value: "true".to_owned()
        })
    );
}

#[test]
fn further_fields_and_an_absent_activation_change_nothing() {
    let expected = BertConfig::from_json(&config(&[])).unwrap();
    let extended = config(&[
        ("architectures", Value::Array(vec![Value::from("BertModel")])),
        ("hidden_dropout_prob", float(0.1)),
    ]);
    assert_eq!(BertConfig::from_json(&extended), Ok(expected));
    let mut silent = config(&[]).as_object().unwrap().clone();
    silent.remove("hidden_act");
    assert_eq!(BertConfig::from_json(&Value::Object(silent)), Ok(expected));
    // An integer epsilon is a number too.
    let whole = BertConfig::from_json(&config(&[("layer_norm_eps", Value::from(1))])).unwrap();
    assert_eq!(whole.layer_norm_eps, single(1.0));
}

#[test]
fn fields_describe_a_configuration_without_a_document() {
    let whole = |value: u64| {
        Some(ConfigField {
            text: None,
            unsigned: Some(value),
            double: None,
            rendered: value.to_string(),
        })
    };
    let text = |value: &str| {
        Some(ConfigField {
            text: Some(value.to_owned()),
            unsigned: None,
            double: None,
            rendered: format!("{value:?}"),
        })
    };
    let fields = ConfigFields {
        model_type: text("bert"),
        hidden_act: None,
        vocab_size: whole(1),
        hidden_size: whole(2),
        num_hidden_layers: whole(3),
        num_attention_heads: whole(2),
        intermediate_size: whole(4),
        max_position_embeddings: whole(5),
        type_vocab_size: whole(6),
        layer_norm_eps: Some(ConfigField {
            text: None,
            unsigned: None,
            double: Some((0.5_f64.to_bits(), "0.5".to_owned())),
            rendered: "0.5".to_owned(),
        }),
    };
    assert_eq!(
        BertConfig::from_fields(&fields),
        Ok(BertConfig {
            vocab_size: 1,
            hidden_size: 2,
            num_hidden_layers: 3,
            num_attention_heads: 2,
            intermediate_size: 4,
            max_position_embeddings: 5,
            type_vocab_size: 6,
            layer_norm_eps: single(0.5),
        })
    );
}

#[test]
fn epsilon_is_checked_where_a_configuration_is_written_by_hand() {
    let mut config = BertConfig::from_json(&config(&[])).unwrap();
    for epsilon in [0.0, -0.0, -1.0, f32::NAN, f32::INFINITY] {
        config.layer_norm_eps = single(epsilon);
        match config.validate() {
            Err(ConfigError::InvalidEpsilon(found)) => {
                assert_eq!(found.bits, single(epsilon).bits);
            }
            other => panic!("{other:?}"),
        }
    }
    config.layer_norm_eps = single(f32::MIN_POSITIVE);
    assert_eq!(config.validate(), Ok(()));
}

#[test]
fn narrowing_agrees_with_the_hardware() {
    let mut bits: u64 = 0x1234_5678_9ABC_DEF1;
    for round in 0..200_000_u64 {
        bits = bits
            .wrapping_mul(6_364_136_223_846_793_005)
            .wrapping_add(1_442_695_040_888_963_407);
        // Crowd the exponents that a single can hold, and its subnormals.
        let exponent = if round % 2 == 0 {
            (bits >> 52) & 0x7FF
        } else {
            860 + (bits >> 52) % 310
        };
        let shift = bits % 30;
        let fraction = (bits >> shift << shift) & 0xF_FFFF_FFFF_FFFF;
        let double = (bits & (1 << 63)) | (exponent << 52) | fraction;
        let expected = f64::from_bits(double) as f32;
        let found = f32::from_bits(Single::narrowed(double).bits);
        if expected.is_nan() {
            assert!(found.is_nan());
        } else {
            assert_eq!(found.to_bits(), expected.to_bits(), "{double:#x}");
        }
    }
    for value in [
        0.0_f64,
        -0.0,
        1.0,
        f64::from(f32::MAX),
        f64::MAX,
        f64::MIN_POSITIVE,
        f64::INFINITY,
        f64::NEG_INFINITY,
        1.000_000_059_604_644_8,
        1.000_000_178_813_934_3,
        3.402_823_567_797_336_6e38,
        7.006_492_321_624_085e-46,
        7.006_492_321_624_086e-46,
    ] {
        assert_eq!(
            Single::narrowed(value.to_bits()).bits,
            (value as f32).to_bits(),
            "{value:e}"
        );
    }
}

#[test]
fn configurations_compare_their_epsilon_by_value() {
    let parsed = BertConfig::from_json(&config(&[])).unwrap();
    let with = |epsilon: f32| BertConfig {
        layer_norm_eps: single(epsilon),
        ..parsed
    };
    assert_eq!(parsed, parsed);
    assert_eq!(with(0.0), with(-0.0));
    assert_ne!(with(f32::NAN), with(f32::NAN));
    assert_ne!(with(1.0), with(2.0));
    let wider = BertConfig {
        hidden_size: 24,
        ..parsed
    };
    assert_ne!(parsed, wider);
}

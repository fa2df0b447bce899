use ribn::batch::executor::BatchSelection;
use ribn::bert::config::BertConfig;
use ribn::bert::request::{
    envelope, select, shape, shape_of, validate, EncoderConstraint, EncoderRequest,
};
use ribn::engine::single::Single;

fn config() -> BertConfig {
    BertConfig {
        vocab_size: 8,
        hidden_size: 12,
        num_hidden_layers: 2,
        num_attention_heads: 3,
        intermediate_size: 20,
        max_position_embeddings: 16,
        type_vocab_size: 2,
        layer_norm_eps: Single::from_bits(1.0e-12_f32.to_bits()),
    }
}

#[test]
fn envelope_covers_every_buffer_the_request_keeps() {
    let config = config();
    let shape = shape(&config, 4).expect("shape");
    assert_eq!(shape.hidden_values(), 48);
    assert_eq!(shape.intermediate_values(), 80);
    // six activation row buffers plus the feed-forward buffer plus two outputs,
    // all f32, plus three id vectors.
    let expected = (6 * 48 + 80 + 2 * 12 + 3 * 4) * size_of::<f32>();
    assert_eq!(shape.device_bytes(), u64::try_from(expected).unwrap());
    assert_eq!(
        envelope(&config, &EncoderRequest::single_segment(vec![1, 2, 3, 4])).expect("envelope"),
        shape.device_bytes()
    );
}

#[test]
fn the_envelope_grows_with_the_sequence_and_not_with_the_batch() {
    let config = config();
    let short = envelope(&config, &EncoderRequest::single_segment(vec![1])).expect("short");
    let long = envelope(&config, &EncoderRequest::single_segment(vec![1; 8])).expect("long");
    assert!(short < long);
    // A concrete shape, not a per-row constant.
    assert_eq!(
        long,
        u64::try_from((6 * 96 + 160 + 2 * 12 + 3 * 8) * size_of::<f32>()).unwrap()
    );
}

#[test]
fn a_request_defect_is_reported_as_a_permanent_constraint() {
    let config = config();
    assert_eq!(
        envelope(&config, &EncoderRequest::single_segment(Vec::new())),
        Err(EncoderConstraint::EmptySequence)
    );
    assert_eq!(
        envelope(&config, &EncoderRequest::single_segment(vec![1; 17])),
        Err(EncoderConstraint::SequenceTooLong {
            sequence: 17,
            max_position_embeddings: 16
        })
    );
    assert_eq!(
        envelope(&config, &EncoderRequest::single_segment(vec![99])),
        Err(EncoderConstraint::UnknownToken {
            token: 99,
            vocabulary: 8
        })
    );
    let mismatched = EncoderRequest {
        token_ids: vec![1, 2],
        token_type_ids: vec![0],
        attention_mask: vec![1, 1],
    };
    assert_eq!(
        envelope(&config, &mismatched),
        Err(EncoderConstraint::LengthMismatch {
            tokens: 2,
            token_types: 1,
            mask: 2
        })
    );
}

#[test]
fn selection_accepts_the_executable_prefix_and_rejects_a_defective_head() {
    let config = config();
    let healthy = [EncoderRequest::single_segment(vec![1, 2, 3])];
    let candidates = healthy.iter().collect::<Vec<_>>();
    assert_eq!(
        select(&config, &candidates),
        BatchSelection::Ready { items: 1 }
    );
    assert_eq!(select(&config, &[]), BatchSelection::Ready { items: 0 });

    let long = EncoderRequest::single_segment(vec![1; 17]);
    let candidates = vec![&long];
    assert_eq!(
        select(&config, &candidates),
        BatchSelection::Rejected(EncoderConstraint::SequenceTooLong {
            sequence: 17,
            max_position_embeddings: 16
        })
    );
    let unknown = EncoderRequest::single_segment(vec![99]);
    let candidates = vec![&unknown];
    assert_eq!(
        select(&config, &candidates),
        BatchSelection::Rejected(EncoderConstraint::UnknownToken {
            token: 99,
            vocabulary: 8
        })
    );

    // A defect behind the head stops the range instead of rejecting work the
    // encoder can execute: the defect becomes the head once the prefix drains.
    let short = EncoderRequest::single_segment(vec![1]);
    let candidates = vec![&short, &long, &unknown];
    assert_eq!(
        select(&config, &candidates),
        BatchSelection::Ready { items: 1 }
    );
}

#[test]
fn the_first_defect_is_the_one_reported() {
    let config = config();
    let request = EncoderRequest {
        token_ids: vec![1, 9, 10],
        token_type_ids: vec![0, 7, 0],
        attention_mask: vec![1, 0, 1],
    };
    assert_eq!(
        validate(&config, &request),
        Err(EncoderConstraint::UnknownToken {
            token: 9,
            vocabulary: 8
        })
    );
    let request = EncoderRequest {
        token_ids: vec![1, 7],
        token_type_ids: vec![1, 2],
        attention_mask: vec![1, 0],
    };
    assert_eq!(
        validate(&config, &request),
        Err(EncoderConstraint::UnknownTokenType {
            kind: 2,
            type_vocabulary: 2
        })
    );
    assert_eq!(
        shape_of(&config, &EncoderRequest::single_segment(vec![7; 16])).map(|shape| (
            shape.sequence(),
            shape.hidden(),
            shape.heads()
        )),
        Ok((16, 12, 3))
    );
}

#[test]
fn shapes_beyond_the_address_space_have_no_envelope() {
    let mut config = config();
    config.hidden_size = usize::MAX / 8;
    assert_eq!(
        shape(&config, 2),
        Err(EncoderConstraint::ShapeOverflow { sequence: 2 })
    );
    config.max_position_embeddings = usize::MAX;
    assert_eq!(
        shape(&config, usize::MAX),
        Err(EncoderConstraint::ShapeOverflow {
            sequence: usize::MAX
        })
    );
    assert_eq!(shape(&config, 0), Err(EncoderConstraint::EmptySequence));
}

#[test]
fn a_shape_that_cannot_be_represented_is_rejected_at_the_head() {
    let mut config = config();
    config.hidden_size = usize::MAX;
    config.num_hidden_layers = 1;
    config.num_attention_heads = 1;
    let request = EncoderRequest::single_segment(vec![1, 2]);
    assert_eq!(validate(&config, &request), Ok(()));
    assert_eq!(
        select(&config, &[&request]),
        BatchSelection::Rejected(EncoderConstraint::ShapeOverflow { sequence: 2 })
    );

    // Behind work that fits, it ends the range instead.
    config.hidden_size = usize::MAX / 32;
    config.intermediate_size = 1;
    let short = EncoderRequest::single_segment(vec![1]);
    let long = EncoderRequest::single_segment(vec![1; 16]);
    let fits = shape(&config, 1).is_ok();
    assert!(shape(&config, 16).is_err());
    assert_eq!(
        select(&config, &[&short, &long]),
        if fits {
            BatchSelection::Ready { items: 1 }
        } else {
            BatchSelection::Rejected(EncoderConstraint::ShapeOverflow { sequence: 1 })
        }
    );
}

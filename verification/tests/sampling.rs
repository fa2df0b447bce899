use ribn::engine::request::{
    drawn_candidate, SamplingError, SamplingParams, TokenSelection,
};
use ribn::engine::single::Single;

fn single(value: f32) -> Single {
    Single::from_bits(value.to_bits())
}

fn singles(values: &[f32]) -> Vec<Single> {
    values.iter().map(|value| single(*value)).collect()
}

fn params(
    seed: Option<u64>,
    temperature: f32,
    top_p: f32,
    top_k: u32,
) -> Result<SamplingParams, SamplingError> {
    SamplingParams::new(seed, single(temperature), single(top_p), top_k)
}

/// Selects a token: the arithmetic is done here, the decisions are the library's.
fn select_token(
    params: SamplingParams,
    logits: &[f32],
    random_unit: f32,
) -> Result<u32, SamplingError> {
    match params.select_token(&singles(logits), single(random_unit))? {
        TokenSelection::Greedy(token) => Ok(token),
        TokenSelection::Stochastic => {
            let temperature = f32::from_bits(params.temperature().bits);
            let scaled: Vec<f32> = logits.iter().map(|logit| logit / temperature).collect();
            let tokens = params.candidates(&singles(&scaled))?;
            let best = scaled[tokens[0] as usize];
            let weights: Vec<f32> = tokens
                .iter()
                .map(|token| (scaled[*token as usize] - best).exp())
                .collect();
            let total: f32 = weights.iter().sum();
            let mut share = 0.0;
            let shares: Vec<Single> = weights
                .iter()
                .map(|weight| {
                    share += weight / total;
                    single(share)
                })
                .collect();
            let kept = params.nucleus(&shares);
            let total: f32 = weights[..kept].iter().sum();
            let mut sum = 0.0;
            let sums: Vec<Single> = weights[..kept]
                .iter()
                .map(|weight| {
                    sum += weight;
                    single(sum)
                })
                .collect();
            let drawn = drawn_candidate(&sums, single(random_unit * total))?;
            Ok(tokens[drawn])
        }
    }
}

#[test]
fn greedy_selection_uses_lowest_id_for_ties() {
    let params = SamplingParams::greedy(Some(7));
    assert_eq!(select_token(params, &[1.0, 3.0, 3.0], 0.75), Ok(1));
}

#[test]
fn stochastic_selection_applies_top_k_and_top_p() {
    let nucleus = params(Some(11), 1.0, 0.9, 0).expect("sampling parameters");
    assert_eq!(select_token(nucleus, &[0.0, -1.0, -2.0], 0.0), Ok(0));
    assert_eq!(select_token(nucleus, &[0.0, -1.0, -2.0], 0.8), Ok(1));

    let top_k = params(None, 1.0, 1.0, 1).expect("top-k parameters");
    assert_eq!(select_token(top_k, &[-3.0, -1.0, -2.0], 0.99), Ok(1));
}

#[test]
fn sampling_rejects_invalid_logits_and_random_draws() {
    let params = params(None, 1.0, 1.0, 0).expect("sampling parameters");
    assert_eq!(
        select_token(params, &[], 0.0),
        Err(SamplingError::EmptyLogits)
    );
    assert_eq!(
        select_token(params, &[f32::NAN], 0.0),
        Err(SamplingError::NonFiniteLogit)
    );
    assert_eq!(
        select_token(params, &[1.0], 1.0),
        Err(SamplingError::InvalidRandomUnit)
    );
}

#[test]
fn sampling_settings_are_checked() {
    for temperature in [-1.0, f32::NAN, f32::INFINITY, -f32::MIN_POSITIVE] {
        assert_eq!(
            params(None, temperature, 1.0, 0),
            Err(SamplingError::InvalidTemperature)
        );
    }
    for top_p in [0.0, -0.5, 1.5, f32::NAN, 1.0 + f32::EPSILON] {
        assert_eq!(
            params(None, 1.0, top_p, 0),
            Err(SamplingError::InvalidTopP)
        );
    }
    assert!(params(None, -0.0, 1.0, 0).is_ok());
    assert!(params(None, 0.7, f32::MIN_POSITIVE, 0).is_ok());
}

#[test]
fn candidates_are_ranked_and_ties_go_to_the_lowest_identity() {
    let all = params(None, 1.0, 1.0, 0).expect("parameters");
    let scaled = singles(&[0.5, -2.0, 0.5, 7.0, -0.0, 0.0]);
    assert_eq!(all.candidates(&scaled), Ok(vec![3, 0, 2, 4, 5, 1]));
    let two = params(None, 1.0, 1.0, 2).expect("parameters");
    assert_eq!(two.candidates(&scaled), Ok(vec![3, 0]));
}

#[test]
fn draws_beyond_every_weight_are_refused() {
    assert_eq!(
        drawn_candidate(&singles(&[0.25, 0.5]), single(0.5)),
        Err(SamplingError::InvalidRandomUnit)
    );
    assert_eq!(drawn_candidate(&singles(&[0.25, 0.5]), single(0.25)), Ok(1));
}

#[test]
fn values_compare_as_numbers() {
    let values = [
        f32::NEG_INFINITY,
        f32::MIN,
        -1.0,
        -f32::MIN_POSITIVE,
        -0.0,
        0.0,
        f32::MIN_POSITIVE,
        1.0,
        f32::MAX,
        f32::INFINITY,
        f32::NAN,
        -f32::NAN,
    ];
    for a in values {
        for b in values {
            assert_eq!(single(a) == single(b), a == b, "{a} {b}");
            assert_eq!(single(a).is_above(single(b)), a > b, "{a} {b}");
            assert_eq!(single(a).is_at_least(single(b)), a >= b, "{a} {b}");
        }
    }
}

#[test]
fn settings_compare_their_values() {
    let greedy = params(Some(7), 0.0, 1.0, 0).expect("settings");
    assert_eq!(greedy, SamplingParams::greedy(Some(7)));
    assert_ne!(greedy, SamplingParams::greedy(None));
    assert_ne!(greedy, params(Some(7), 0.5, 1.0, 0).expect("settings"));
    assert_ne!(greedy, params(Some(7), 0.0, 0.5, 0).expect("settings"));
    assert_ne!(greedy, params(Some(7), 0.0, 1.0, 3).expect("settings"));
    // Where the negative zero is a temperature at all, it is the same one.
    if let Ok(negative) = params(Some(7), -0.0, 1.0, 0) {
        assert_eq!(greedy, negative);
    }
}

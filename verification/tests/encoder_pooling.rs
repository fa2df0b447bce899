//! A tiny reference encoder: embedding lookup followed by mean pooling.

use std::convert::Infallible;

use ribn::batch::executor::{
    BatchConfig, BatchExecutor, BatchSelection, EnqueueError, Job, JobOutput, RequestIds,
    StepOutcome,
};
use ribn::batch::runtime::BatchRuntime;
use ribn::foundation::parameter::ParameterVersion;
use ribn::foundation::pool::BytePool;
use ribn::foundation::readiness::SourceIds;

fn fresh_pool(capacity: u64) -> BytePool {
    BytePool::new(SourceIds::new().take().expect("source"), capacity)
}

#[derive(Clone, Debug, Eq, PartialEq)]
enum EncoderError {
    EmptyInput,
    InputTooLong,
    TokenOutOfRange(u32),
    BatchTooLarge { tokens: usize, limit: usize },
}

struct ReferenceEncoder {
    version: ParameterVersion,
    embeddings: Vec<[f32; 3]>,
    max_items: usize,
    max_batch_tokens: usize,
}

impl ReferenceEncoder {
    fn fixture(max_batch_tokens: usize) -> Self {
        Self {
            version: ParameterVersion::new(11),
            embeddings: vec![
                [1.0, 0.0, 0.0],
                [0.0, 1.0, 0.0],
                [0.0, 0.0, 1.0],
                [1.0, 1.0, 1.0],
            ],
            max_items: 2,
            max_batch_tokens,
        }
    }

    fn encode(&self, tokens: &[u32]) -> Result<[f32; 3], EncoderError> {
        if tokens.is_empty() {
            return Err(EncoderError::EmptyInput);
        }
        let mut output = [0.0_f32; 3];
        for &token in tokens {
            let index = usize::try_from(token).map_err(|_| EncoderError::TokenOutOfRange(token))?;
            let row = self
                .embeddings
                .get(index)
                .ok_or(EncoderError::TokenOutOfRange(token))?;
            for (destination, value) in output.iter_mut().zip(row) {
                *destination += value;
            }
        }
        let length = u16::try_from(tokens.len()).map_err(|_| EncoderError::InputTooLong)?;
        let scale = 1.0 / f32::from(length);
        for value in &mut output {
            *value *= scale;
        }
        Ok(output)
    }
}

impl BatchExecutor for ReferenceEncoder {
    type Input = Vec<u32>;
    type Output = [f32; 3];
    type Error = EncoderError;
    type Constraint = Infallible;

    fn parameter_version(&self) -> ParameterVersion {
        self.version
    }

    fn max_batch_items(&self) -> usize {
        self.max_items
    }

    fn select_batch(&self, candidates: &[&Self::Input]) -> BatchSelection<Self::Constraint> {
        let mut selected = 0;
        let mut tokens = 0_usize;
        for candidate in candidates {
            let next = tokens.saturating_add(candidate.len());
            if selected > 0 && next > self.max_batch_tokens {
                break;
            }
            tokens = next;
            selected += 1;
        }
        BatchSelection::Ready { items: selected }
    }

    fn retained_bytes(&self, _input: &Self::Input) -> u64 {
        12
    }

    fn execute(
        &mut self,
        pool: &mut BytePool,
        batch: Vec<Job<Self::Input>>,
    ) -> Result<Vec<JobOutput<Self::Output>>, EnqueueError<Self::Error>> {
        let batch_tokens = batch.iter().map(|job| job.input().len()).sum::<usize>();
        if batch_tokens > self.max_batch_tokens {
            for job in batch {
                pool.release(job.into_parts().2);
            }
            return Err(EnqueueError::Refused(EncoderError::BatchTooLarge {
                tokens: batch_tokens,
                limit: self.max_batch_tokens,
            }));
        }
        batch
            .into_iter()
            .map(|job| {
                let (request, input, lease) = job.into_parts();
                let output = self.encode(&input).map_err(EnqueueError::Refused)?;
                Ok(JobOutput::new(request, output, lease))
            })
            .collect()
    }

    fn retire(&mut self, _pool: &mut BytePool, _outputs: Vec<JobOutput<Self::Output>>) {}
}

fn assert_close(actual: [f32; 3], expected: [f32; 3]) {
    for (actual, expected) in actual.into_iter().zip(expected) {
        assert!((actual - expected).abs() <= 1.0e-6);
    }
}

fn config() -> BatchConfig {
    BatchConfig {
        max_waiting_requests: 8,
        max_retained_results: 8,
    }
}

#[test]
fn variable_length_encoder_inputs_batch_without_ar_semantics() {
    let mut ids = RequestIds::new();
    let mut pool = fresh_pool(1 << 10);
    let mut runtime = BatchRuntime::new(ReferenceEncoder::fixture(8), config()).expect("runtime");

    let first = runtime
        .submit(&mut ids, &pool, vec![0, 1])
        .expect("first request");
    let second = runtime
        .submit(&mut ids, &pool, vec![2, 3, 0])
        .expect("second request");
    assert_eq!(
        runtime.step(&mut pool).expect("encoder batch"),
        StepOutcome::Executed { results: 2 }
    );

    let first_output = runtime.pop_completed().expect("first output");
    let second_output = runtime.pop_completed().expect("second output");
    assert_eq!(first_output.request(), first);
    assert_eq!(second_output.request(), second);
    assert_eq!(first_output.parameter_version(), ParameterVersion::new(11));
    assert_eq!(second_output.parameter_version(), ParameterVersion::new(11));
    assert_close(*first_output.output().expect("output"), [0.5, 0.5, 0.0]);
    assert_close(
        *second_output.output().expect("output"),
        [2.0 / 3.0, 1.0 / 3.0, 2.0 / 3.0],
    );
}

#[test]
fn executor_informed_selection_respects_encoder_batch_cost() {
    let mut ids = RequestIds::new();
    let mut pool = fresh_pool(1 << 10);
    let mut runtime = BatchRuntime::new(ReferenceEncoder::fixture(4), config()).expect("runtime");

    let first = runtime
        .submit(&mut ids, &pool, vec![0, 1, 2])
        .expect("first request");
    let second = runtime
        .submit(&mut ids, &pool, vec![3, 2, 1])
        .expect("second request");

    assert_eq!(
        runtime.step(&mut pool).expect("first encoder batch"),
        StepOutcome::Executed { results: 1 }
    );
    assert_eq!(runtime.queued(), 1);
    assert_eq!(
        runtime.pop_completed().expect("first output").request(),
        first
    );

    assert_eq!(
        runtime.step(&mut pool).expect("second encoder batch"),
        StepOutcome::Executed { results: 1 }
    );
    assert_eq!(runtime.queued(), 0);
    assert_eq!(
        runtime.pop_completed().expect("second output").request(),
        second
    );
}

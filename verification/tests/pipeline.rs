use mel_pipeline::config::{AudioConfig, Config, ConfigurationError, InputConfig, ModelConfig};
use mel_pipeline::filterbank::create_mel_basis;
use mel_pipeline::pipeline::{Action, Event, Phase, Pipeline, Rejection, StopReason};
use num_complex::Complex;
use rustfft::FftPlanner;

fn config(
    fft_size: u32,
    hop_length: u32,
    n_mels: u32,
    window_size: u32,
    input_time_steps: u32,
) -> Config {
    Config::get(
        AudioConfig { sample_rate: 16000, fft_size, hop_length, n_mels, window_size },
        InputConfig { input_type: String::from("stream"), input_path: String::new() },
        ModelConfig { input_time_steps, fmin: 0, fmax: 8000 },
    ).unwrap()
}

fn speech_config() -> Config {
    config(512, 160, 40, 400, 10)
}

fn hann_window(size: usize) -> Vec<f32> {
    (0..size)
        .map(|i| 0.5 * (1.0 - f32::cos(2.0 * std::f32::consts::PI * i as f32 / (size as f32 - 1.0))))
        .collect()
}

fn hz_to_mel(hz: f32) -> f32 {
    2595.0 * (1.0 + hz / 700.0).log10()
}

fn mel_to_hz(mel: f32) -> f32 {
    700.0 * (10.0f32.powf(mel / 2595.0) - 1.0)
}

fn mel_bins(config: &Config) -> Vec<usize> {
    let low = hz_to_mel(config.model.fmin as f32);
    let high = hz_to_mel(config.model.fmax as f32);
    let points = config.audio.n_mels as usize + 2;
    let scale = config.audio.fft_size as f32 / config.audio.sample_rate as f32;
    (0..points)
        .map(|i| {
            let mel = low + (high - low) * i as f32 / (points - 1) as f32;
            (mel_to_hz(mel) * scale).round() as usize
        })
        .collect()
}

/// The numeric side of the pipeline: taper, transform, mel projection, log.
struct Analyzer {
    window: Vec<f32>,
    basis: Vec<Vec<f32>>,
    fft_size: usize,
}

impl Analyzer {
    fn new(config: &Config) -> Analyzer {
        let exact = create_mel_basis(
            &mel_bins(config),
            config.audio.fft_size as usize,
            config.audio.n_mels as usize,
        ).unwrap();
        let basis = exact
            .iter()
            .map(|row| row.iter().map(|w| w.num as f32 / w.den as f32).collect())
            .collect();
        Analyzer {
            window: hann_window(config.audio.window_size as usize),
            basis,
            fft_size: config.audio.fft_size as usize,
        }
    }

    fn analyze(&self, frame: &[f32]) -> Vec<f32> {
        assert_eq!(frame.len(), self.window.len());
        let mut buffer: Vec<Complex<f32>> =
            frame.iter().zip(&self.window).map(|(x, w)| Complex::new(x * w, 0.0)).collect();
        buffer.resize(self.fft_size, Complex::new(0.0, 0.0));
        FftPlanner::<f32>::new().plan_fft_forward(self.fft_size).process(&mut buffer);
        let power: Vec<f32> = buffer[..self.fft_size / 2 + 1].iter().map(|c| c.norm_sqr()).collect();
        self.basis
            .iter()
            .map(|row| {
                let energy: f32 = row.iter().zip(&power).map(|(w, p)| w * p).sum();
                (energy + 1e-10).ln()
            })
            .collect()
    }
}

/// What a run of the driver produced.
struct Run {
    frames: Vec<Vec<f32>>,
    vectors: Vec<Vec<f32>>,
    batches: Vec<Vec<Vec<f32>>>,
}

impl Run {
    fn new() -> Run {
        Run { frames: Vec::new(), vectors: Vec::new(), batches: Vec::new() }
    }
}

/// Performs actions until the driver waits for audio or stops, delivering
/// every tensor successfully, and returns the action that ended the round.
fn settle(
    pipeline: &mut Pipeline<f32>,
    first: Action<f32>,
    analyze: &dyn Fn(&[f32]) -> Vec<f32>,
    run: &mut Run,
) -> Action<f32> {
    let mut action = first;
    loop {
        action = match action {
            Action::Analyze(frame) => {
                let vector = analyze(&frame);
                run.frames.push(frame);
                run.vectors.push(vector.clone());
                pipeline.step(Event::Features(vector)).unwrap()
            }
            Action::Emit(batch) => {
                run.batches.push(batch);
                pipeline.step(Event::Delivered).unwrap()
            }
            done => return done,
        }
    }
}

fn feed(pipeline: &mut Pipeline<f32>, chunk: Vec<f32>, analyze: &dyn Fn(&[f32]) -> Vec<f32>, run: &mut Run) {
    let action = pipeline.step(Event::Chunk(chunk)).unwrap();
    let end = settle(pipeline, action, analyze, run);
    assert!(matches!(end, Action::AwaitChunk));
    assert_eq!(pipeline.phase(), Phase::Idle);
}

/// A stand-in analysis for tests of sequencing: the sum of the frame in every
/// band.
fn sums(n_mels: usize) -> impl Fn(&[f32]) -> Vec<f32> {
    move |frame: &[f32]| vec![frame.iter().sum(); n_mels]
}

#[test]
fn silence_yields_sixty_one_frames_and_six_tensors() {
    let config = speech_config();
    let analyzer = Analyzer::new(&config);
    let mut pipeline = Pipeline::<f32>::new(&config).unwrap();
    let mut run = Run::new();
    feed(&mut pipeline, vec![0.0; 10000], &|frame| analyzer.analyze(frame), &mut run);

    assert_eq!(run.frames.len(), 61);
    assert_eq!(run.vectors.len(), 61);
    let floor = (0.0f32 + 1e-10).ln();
    for vector in &run.vectors {
        assert_eq!(vector.len(), 40);
        for value in vector {
            assert_eq!(*value, floor);
        }
    }
    assert_eq!(run.batches.len(), 6);
    for batch in &run.batches {
        assert_eq!(batch.len(), 10);
        for row in batch {
            assert_eq!(row.len(), 40);
        }
    }
    assert_eq!(pipeline.batcher().retained(), 1);
    assert_eq!(pipeline.frames().len(), 10000 - 61 * 160);

    let stop = pipeline.step(Event::Closed).unwrap();
    assert!(matches!(stop, Action::Stop(StopReason::InputClosed)));
    assert_eq!(run.batches.len(), 6);
    assert_eq!(pipeline.batcher().retained(), 1);
}

#[test]
fn silence_in_single_samples_yields_the_same() {
    let config = speech_config();
    let mut pipeline = Pipeline::<f32>::new(&config).unwrap();
    let mut run = Run::new();
    let analyze = sums(40);
    for _ in 0..10000 {
        feed(&mut pipeline, vec![0.0], &analyze, &mut run);
    }
    assert_eq!(run.frames.len(), 61);
    assert_eq!(run.batches.len(), 6);
    assert_eq!(pipeline.batcher().retained(), 1);
}

#[test]
fn sinusoid_peaks_in_the_band_that_holds_its_bin() {
    let config = speech_config();
    let analyzer = Analyzer::new(&config);
    let bins = mel_bins(&config);
    for band in [5usize, 12, 20, 31] {
        let center = bins[band + 1];
        assert!(bins[band] < center && center < bins[band + 2]);
        let frame: Vec<f32> = (0..400)
            .map(|k| f32::sin(2.0 * std::f32::consts::PI * center as f32 * k as f32 / 512.0))
            .collect();
        let vector = analyzer.analyze(&frame);
        assert_eq!(vector.len(), 40);
        for other in 0..40 {
            let outside = center < bins[other] || center >= bins[other + 2];
            if other != band && outside {
                assert!(
                    vector[band] > vector[other],
                    "band {band} ({}) against band {other} ({})",
                    vector[band],
                    vector[other]
                );
            }
        }
    }
}

#[test]
fn pipeline_rejects_invalid_configuration() {
    let mut bad = speech_config();
    bad.audio.hop_length = 0;
    assert!(matches!(Pipeline::<f32>::new(&bad), Err(ConfigurationError::HopLength)));
    let mut bad = speech_config();
    bad.audio.window_size = 1;
    assert!(matches!(Pipeline::<f32>::new(&bad), Err(ConfigurationError::WindowSize)));
    let mut bad = speech_config();
    bad.model.input_time_steps = 0;
    assert!(matches!(Pipeline::<f32>::new(&bad), Err(ConfigurationError::TimeSteps)));
    let mut bad = speech_config();
    bad.model.fmax = 9000;
    assert!(matches!(Pipeline::<f32>::new(&bad), Err(ConfigurationError::FrequencyRange)));
}

#[test]
fn pipeline_starts_idle_and_empty() {
    let pipeline = Pipeline::<f32>::new(&speech_config()).unwrap();
    assert_eq!(pipeline.phase(), Phase::Idle);
    assert_eq!(pipeline.frames().len(), 0);
    assert_eq!(pipeline.frames().window_size(), 400);
    assert_eq!(pipeline.frames().hop_length(), 160);
    assert_eq!(pipeline.batcher().retained(), 0);
    assert_eq!(pipeline.batcher().n_mels(), 40);
    assert_eq!(pipeline.batcher().input_time_steps(), 10);
}

#[test]
fn short_chunk_leaves_the_driver_waiting() {
    let mut pipeline = Pipeline::<f32>::new(&config(4, 2, 1, 4, 2)).unwrap();
    let action = pipeline.step(Event::Chunk(vec![1.0, 2.0, 3.0])).unwrap();
    assert!(matches!(action, Action::AwaitChunk));
    assert_eq!(pipeline.phase(), Phase::Idle);
    assert_eq!(pipeline.frames().len(), 3);
}

#[test]
fn frames_are_handed_out_in_stream_order() {
    let mut pipeline = Pipeline::<f32>::new(&config(4, 2, 1, 4, 100)).unwrap();
    let mut run = Run::new();
    let analyze = sums(1);
    feed(&mut pipeline, vec![0.0, 1.0, 2.0, 3.0, 4.0], &analyze, &mut run);
    feed(&mut pipeline, vec![5.0, 6.0, 7.0], &analyze, &mut run);
    assert_eq!(
        run.frames,
        vec![
            vec![0.0, 1.0, 2.0, 3.0],
            vec![2.0, 3.0, 4.0, 5.0],
            vec![4.0, 5.0, 6.0, 7.0],
        ]
    );
    assert!(run.batches.is_empty());
    assert_eq!(pipeline.batcher().retained(), 3);
}

#[test]
fn tensor_is_emitted_before_the_next_frame_is_cut() {
    let mut pipeline = Pipeline::<f32>::new(&config(2, 1, 1, 2, 2)).unwrap();
    let action = pipeline.step(Event::Chunk(vec![1.0, 2.0, 3.0, 4.0])).unwrap();
    assert!(matches!(&action, Action::Analyze(frame) if frame == &vec![1.0, 2.0]));
    assert_eq!(pipeline.phase(), Phase::Draining);
    let action = pipeline.step(Event::Features(vec![10.0])).unwrap();
    assert!(matches!(&action, Action::Analyze(frame) if frame == &vec![2.0, 3.0]));
    let action = pipeline.step(Event::Features(vec![20.0])).unwrap();
    assert!(matches!(&action, Action::Emit(batch) if batch == &vec![vec![10.0], vec![20.0]]));
    assert_eq!(pipeline.phase(), Phase::Emitting);
    assert_eq!(pipeline.frames().len(), 2);
    let action = pipeline.step(Event::Delivered).unwrap();
    assert!(matches!(&action, Action::Analyze(frame) if frame == &vec![3.0, 4.0]));
    let action = pipeline.step(Event::Features(vec![30.0])).unwrap();
    assert!(matches!(action, Action::AwaitChunk));
    assert_eq!(pipeline.phase(), Phase::Idle);
    assert_eq!(pipeline.batcher().retained(), 1);
}

#[test]
fn tensors_do_not_depend_on_chunking() {
    let stream: Vec<f32> = (0..500).map(|i| (i % 17) as f32).collect();
    let cfg = config(8, 3, 2, 8, 4);
    let analyze = sums(2);

    let mut whole = Run::new();
    let mut pipeline = Pipeline::<f32>::new(&cfg).unwrap();
    feed(&mut pipeline, stream.clone(), &analyze, &mut whole);
    assert_eq!(whole.frames.len(), 1 + (500 - 8) / 3);
    assert_eq!(whole.batches.len(), whole.frames.len() / 4);
    let retained = pipeline.batcher().retained();
    assert_eq!(retained, whole.frames.len() % 4);

    for size in [1usize, 2, 7, 64, 499] {
        let mut cut = Run::new();
        let mut pipeline = Pipeline::<f32>::new(&cfg).unwrap();
        for chunk in stream.chunks(size) {
            feed(&mut pipeline, chunk.to_vec(), &analyze, &mut cut);
        }
        assert_eq!(cut.frames, whole.frames);
        assert_eq!(cut.batches, whole.batches);
        assert_eq!(pipeline.batcher().retained(), retained);
    }
}

#[test]
fn tensor_rows_are_the_vectors_in_order() {
    let cfg = config(2, 2, 3, 2, 3);
    let mut pipeline = Pipeline::<f32>::new(&cfg).unwrap();
    let mut run = Run::new();
    let stream: Vec<f32> = (0..14).map(|i| i as f32).collect();
    feed(&mut pipeline, stream, &sums(3), &mut run);
    assert_eq!(run.vectors.len(), 7);
    assert_eq!(run.batches.len(), 2);
    assert_eq!(run.batches[0], run.vectors[0..3].to_vec());
    assert_eq!(run.batches[1], run.vectors[3..6].to_vec());
    assert_eq!(run.batches[0][0], vec![1.0, 1.0, 1.0]);
    assert_eq!(run.batches[1][2], vec![21.0, 21.0, 21.0]);
    assert_eq!(pipeline.batcher().retained(), 1);
}

#[test]
fn frames_further_apart_than_they_are_long() {
    let cfg = config(2, 5, 1, 2, 1);
    let mut pipeline = Pipeline::<f32>::new(&cfg).unwrap();
    let mut run = Run::new();
    let stream: Vec<f32> = (0..12).map(|i| i as f32).collect();
    for chunk in stream.chunks(3) {
        feed(&mut pipeline, chunk.to_vec(), &sums(1), &mut run);
    }
    assert_eq!(run.frames, vec![vec![0.0, 1.0], vec![5.0, 6.0], vec![10.0, 11.0]]);
    assert_eq!(run.batches, vec![vec![vec![1.0]], vec![vec![11.0]], vec![vec![21.0]]]);
}

#[test]
fn closing_the_input_stops_and_discards_the_partial_tensor() {
    let mut pipeline = Pipeline::<f32>::new(&config(2, 2, 1, 2, 3)).unwrap();
    let mut run = Run::new();
    feed(&mut pipeline, vec![1.0, 2.0, 3.0, 4.0, 5.0], &sums(1), &mut run);
    assert_eq!(pipeline.batcher().retained(), 2);
    let action = pipeline.step(Event::Closed).unwrap();
    assert!(matches!(action, Action::Stop(StopReason::InputClosed)));
    assert_eq!(pipeline.phase(), Phase::Stopped);
    assert!(run.batches.is_empty());
    assert_eq!(pipeline.batcher().retained(), 2);
}

#[test]
fn failed_delivery_stops_the_pipeline() {
    let mut pipeline = Pipeline::<f32>::new(&config(2, 1, 1, 2, 1)).unwrap();
    let action = pipeline.step(Event::Chunk(vec![1.0, 2.0, 3.0])).unwrap();
    assert!(matches!(action, Action::Analyze(_)));
    let action = pipeline.step(Event::Features(vec![0.5])).unwrap();
    assert!(matches!(action, Action::Emit(_)));
    let action = pipeline.step(Event::SendFailed).unwrap();
    assert!(matches!(action, Action::Stop(StopReason::ConsumerGone)));
    assert_eq!(pipeline.phase(), Phase::Stopped);
}

#[test]
fn stopped_pipeline_takes_no_event() {
    let mut pipeline = Pipeline::<f32>::new(&config(2, 1, 1, 2, 1)).unwrap();
    pipeline.step(Event::Closed).unwrap();
    assert!(matches!(pipeline.step(Event::Chunk(vec![1.0, 2.0])), Err(Rejection::UnexpectedEvent)));
    assert!(matches!(pipeline.step(Event::Features(vec![1.0])), Err(Rejection::UnexpectedEvent)));
    assert!(matches!(pipeline.step(Event::Delivered), Err(Rejection::UnexpectedEvent)));
    assert!(matches!(pipeline.step(Event::SendFailed), Err(Rejection::UnexpectedEvent)));
    assert!(matches!(pipeline.step(Event::Closed), Err(Rejection::UnexpectedEvent)));
    assert_eq!(pipeline.phase(), Phase::Stopped);
}

#[test]
fn idle_pipeline_takes_only_audio_or_closure() {
    let mut pipeline = Pipeline::<f32>::new(&config(2, 1, 1, 2, 1)).unwrap();
    assert!(matches!(pipeline.step(Event::Features(vec![1.0])), Err(Rejection::UnexpectedEvent)));
    assert!(matches!(pipeline.step(Event::Delivered), Err(Rejection::UnexpectedEvent)));
    assert!(matches!(pipeline.step(Event::SendFailed), Err(Rejection::UnexpectedEvent)));
    assert_eq!(pipeline.phase(), Phase::Idle);
    assert!(matches!(pipeline.step(Event::Chunk(vec![1.0])), Ok(Action::AwaitChunk)));
}

#[test]
fn draining_pipeline_takes_only_features() {
    let mut pipeline = Pipeline::<f32>::new(&config(2, 1, 1, 2, 2)).unwrap();
    pipeline.step(Event::Chunk(vec![1.0, 2.0])).unwrap();
    assert_eq!(pipeline.phase(), Phase::Draining);
    assert!(matches!(pipeline.step(Event::Chunk(vec![3.0])), Err(Rejection::UnexpectedEvent)));
    assert!(matches!(pipeline.step(Event::Closed), Err(Rejection::UnexpectedEvent)));
    assert!(matches!(pipeline.step(Event::Delivered), Err(Rejection::UnexpectedEvent)));
    assert!(matches!(pipeline.step(Event::SendFailed), Err(Rejection::UnexpectedEvent)));
    assert_eq!(pipeline.phase(), Phase::Draining);
    assert_eq!(pipeline.frames().len(), 1);
    assert!(matches!(pipeline.step(Event::Features(vec![1.0])), Ok(Action::AwaitChunk)));
}

#[test]
fn emitting_pipeline_takes_only_the_outcome_of_delivery() {
    let mut pipeline = Pipeline::<f32>::new(&config(2, 1, 1, 2, 1)).unwrap();
    pipeline.step(Event::Chunk(vec![1.0, 2.0])).unwrap();
    pipeline.step(Event::Features(vec![1.0])).unwrap();
    assert_eq!(pipeline.phase(), Phase::Emitting);
    assert!(matches!(pipeline.step(Event::Chunk(vec![3.0])), Err(Rejection::UnexpectedEvent)));
    assert!(matches!(pipeline.step(Event::Features(vec![1.0])), Err(Rejection::UnexpectedEvent)));
    assert!(matches!(pipeline.step(Event::Closed), Err(Rejection::UnexpectedEvent)));
    assert_eq!(pipeline.phase(), Phase::Emitting);
    assert!(matches!(pipeline.step(Event::Delivered), Ok(Action::AwaitChunk)));
}

#[test]
fn vector_of_wrong_length_is_rejected_and_changes_nothing() {
    let mut pipeline = Pipeline::<f32>::new(&config(2, 1, 3, 2, 1)).unwrap();
    pipeline.step(Event::Chunk(vec![1.0, 2.0])).unwrap();
    assert!(matches!(pipeline.step(Event::Features(vec![1.0, 2.0])), Err(Rejection::VectorLength)));
    assert!(matches!(pipeline.step(Event::Features(Vec::new())), Err(Rejection::VectorLength)));
    assert!(matches!(
        pipeline.step(Event::Features(vec![1.0, 2.0, 3.0, 4.0])),
        Err(Rejection::VectorLength)
    ));
    assert_eq!(pipeline.phase(), Phase::Draining);
    assert_eq!(pipeline.batcher().retained(), 0);
    let action = pipeline.step(Event::Features(vec![1.0, 2.0, 3.0])).unwrap();
    assert!(matches!(&action, Action::Emit(batch) if batch == &vec![vec![1.0, 2.0, 3.0]]));
}

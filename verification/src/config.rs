//! Static parameters of the pipeline and the rules they must satisfy.

use vstd::prelude::*;

verus! {

/// Parameters of the short-time analysis.
#[derive(Debug, Clone, Copy, PartialEq, Eq)]
pub struct AudioConfig {
    /// Samples per second of the incoming audio.
    pub sample_rate: u32,
    /// Length of the Fourier transform, in samples.
    pub fft_size: u32,
    /// Samples between the starts of consecutive frames.
    pub hop_length: u32,
    /// Number of mel bands.
    pub n_mels: u32,
    /// Samples per analysis frame.
    pub window_size: u32,
}

/// Where the audio comes from.
#[derive(Debug, PartialEq, Eq)]
pub struct InputConfig {
    pub input_type: String,
    pub input_path: String,
}

/// What the consuming model expects.
#[derive(Debug, Clone, Copy, PartialEq, Eq)]
pub struct ModelConfig {
    /// Rows (time steps) per emitted tensor.
    pub input_time_steps: u32,
    /// Lower edge of the mel filterbank, in Hz.
    pub fmin: u32,
    /// Upper edge of the mel filterbank, in Hz.
    pub fmax: u32,
}

/// The complete, validated configuration.
#[derive(Debug, PartialEq, Eq)]
pub struct Config {
    pub audio: AudioConfig,
    pub input: InputConfig,
    pub model: ModelConfig,
}

/// The parameter that makes a configuration unusable.
#[derive(Debug, Clone, Copy, PartialEq, Eq, Structural)]
pub enum ConfigurationError {
    /// `sample_rate` is zero.
    SampleRate,
    /// `fft_size` is zero or odd.
    FftSize,
    /// `hop_length` is zero: framing would never advance.
    HopLength,
    /// `n_mels` is zero.
    MelBands,
    /// `window_size` is below two samples or above `fft_size`.
    WindowSize,
    /// `fmin < fmax <= sample_rate / 2` does not hold.
    FrequencyRange,
    /// `input_time_steps` is zero.
    TimeSteps,
    /// The filterbank's boundary bins are not a non-decreasing list of
    /// `n_mels + 2` bins at or below the Nyquist bin.
    BinLayout,
}

impl Config {
    /// The first rule that the numeric parameters break, in a fixed order of
    /// checks, or `None` when they are all usable.
    pub open spec fn violation(audio: AudioConfig, model: ModelConfig) -> Option<
        ConfigurationError,
    > {
        if audio.sample_rate == 0 {
            Some(ConfigurationError::SampleRate)
        } else if audio.fft_size == 0 || audio.fft_size % 2 != 0 {
            Some(ConfigurationError::FftSize)
        } else if audio.hop_length == 0 {
            Some(ConfigurationError::HopLength)
        } else if audio.n_mels == 0 {
            Some(ConfigurationError::MelBands)
        } else if audio.window_size < 2 || audio.window_size > audio.fft_size {
            Some(ConfigurationError::WindowSize)
        } else if !(model.fmin < model.fmax && 2 * model.fmax <= audio.sample_rate) {
            Some(ConfigurationError::FrequencyRange)
        } else if model.input_time_steps == 0 {
            Some(ConfigurationError::TimeSteps)
        } else {
            None
        }
    }

    /// Whether every numeric parameter is usable.
    pub open spec fn valid(&self) -> bool {
        Config::violation(self.audio, self.model) is None
    }

    /// Number of bins in a power spectrum: the transform's outputs up to and
    /// including the Nyquist bin.
    pub fn spectrum_bins(&self) -> (bins: usize)
        ensures
            bins == self.audio.fft_size / 2 + 1,
    {
        (self.audio.fft_size / 2) as usize + 1
    }

    /// Checks the numeric parameters of a configuration.
    pub fn validate(&self) -> (result: Result<(), ConfigurationError>)
        ensures
            result == match Config::violation(self.audio, self.model) {
                Some(e) => Err::<(), ConfigurationError>(e),
                None => Ok::<(), ConfigurationError>(()),
            },
    {
        let audio = &self.audio;
        let model = &self.model;
        if audio.sample_rate == 0 {
            Err(ConfigurationError::SampleRate)
        } else if audio.fft_size == 0 || audio.fft_size % 2 != 0 {
            Err(ConfigurationError::FftSize)
        } else if audio.hop_length == 0 {
            Err(ConfigurationError::HopLength)
        } else if audio.n_mels == 0 {
            Err(ConfigurationError::MelBands)
        } else if audio.window_size < 2 || audio.window_size > audio.fft_size {
            Err(ConfigurationError::WindowSize)
        } else if model.fmin >= model.fmax || model.fmax > audio.sample_rate / 2 {
            Err(ConfigurationError::FrequencyRange)
        } else if model.input_time_steps == 0 {
            Err(ConfigurationError::TimeSteps)
        } else {
            Ok(())
        }
    }

    /// Assembles the configuration from its three sections, or names the
    /// parameter that rules it out.
    pub fn get(audio: AudioConfig, input: InputConfig, model: ModelConfig) -> (result: Result<
        Config,
        ConfigurationError,
    >)
        ensures
            result == match Config::violation(audio, model) {
                Some(e) => Err::<Config, ConfigurationError>(e),
                None => Ok::<Config, ConfigurationError>((Config { audio, input, model })),
            },
    {
        let config = Config { audio, input, model };
        match config.validate() {
            Ok(()) => Ok(config),
            Err(e) => Err(e),
        }
    }
}

} // verus!

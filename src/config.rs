//! Settings of the recorder, the encoders, the indexers and the viewer, and
//! the components' names and health.

use vstd::prelude::*;
use vstd::string::StringExecFns;
use crate::text::{chars_of, push_str, string_of};

verus! {

/// `dir` joined with the relative path `name`, with `/` between them.
pub open spec fn joined_path(dir: Seq<char>, name: Seq<char>) -> Seq<char> {
    if dir.len() == 0 {
        name
    } else if dir.last() == '/' || dir.last() == '\\' {
        dir + name
    } else {
        dir + seq!['/'] + name
    }
}

/// `dir` joined with the relative path `name`; see `joined_path`.
pub fn join_path(dir: &str, name: &str) -> (r: String)
    ensures
        r@ == joined_path(dir@, name@),
{
    let d = chars_of(dir);
    let mut out = d.clone();
    assert(out@ == d@);
    if d.len() > 0 && d[d.len() - 1] != '/' && d[d.len() - 1] != '\\' {
        out.push('/');
    }
    push_str(&mut out, name);
    string_of(&out)
}

/// Relies on `dirs::data_local_dir`: the user's local data directory, if
/// the platform defines one, as a lossy UTF-8 string.
#[verifier::external_body]
fn data_local_dir() -> (r: Option<String>) {
    match dirs::data_local_dir() {
        Some(p) => Some(p.to_string_lossy().into_owned()),
        None => None,
    }
}

/// The directory that holds the application's data: `Memoire` under the
/// local data directory `local`, or under `.` where there is none.
pub open spec fn app_dir_of(local: Option<Seq<char>>) -> Seq<char> {
    joined_path(
        match local {
            Some(d) => d,
            None => "."@,
        },
        "Memoire"@,
    )
}

pub open spec fn opt_view(o: Option<String>) -> Option<Seq<char>> {
    match o {
        Some(s) => Some(s@),
        None => None,
    }
}

/// `sub` under the application directory for the local data directory
/// `local`; see `app_dir_of`.
pub fn app_data_path_in(local: &Option<String>, sub: &str) -> (r: String)
    ensures
        r@ == joined_path(app_dir_of(opt_view(*local)), sub@),
{
    let app = app_dir_in(local);
    join_path(app.as_str(), sub)
}

/// The application directory for the local data directory `local`.
pub fn app_dir_in(local: &Option<String>) -> (r: String)
    ensures
        r@ == app_dir_of(opt_view(*local)),
{
    match local {
        Some(d) => join_path(d.as_str(), "Memoire"),
        None => join_path(".", "Memoire"),
    }
}

/// Where speech models are kept by default: `models` under the application
/// directory of this machine's local data directory.
pub fn default_model_dir() -> (r: String)
    ensures
        exists|local: Option<Seq<char>>| r@ == joined_path(app_dir_of(local), "models"@),
{
    let local = data_local_dir();
    app_data_path_in(&local, "models")
}

/// Recorder settings.
#[derive(Debug, Clone)]
pub struct Config {
    /// Directory of the database and the recordings.
    pub data_dir: String,
    /// Frames captured per second.
    pub fps: u32,
    /// Whether to try the hardware video encoder first.
    pub use_hw_encoding: bool,
    /// Length of a video chunk, in seconds.
    pub chunk_duration_secs: u64,
}

impl Config {
    /// The defaults under the application directory for the local data
    /// directory `local`.
    pub fn for_local_dir(local: &Option<String>) -> (r: Config)
        ensures
            r.data_dir@ == app_dir_of(opt_view(*local)),
            r.fps == 1,
            r.use_hw_encoding,
            r.chunk_duration_secs == 300,
    {
        Config::with_data_dir(app_dir_in(local))
    }

    /// Defaults under `data_dir`: 1 frame per second, hardware encoding,
    /// five-minute chunks.
    pub fn with_data_dir(data_dir: String) -> (r: Config)
        ensures
            r.data_dir@ == data_dir@,
            r.fps == 1,
            r.use_hw_encoding,
            r.chunk_duration_secs == 300,
    {
        Config { data_dir, fps: 1, use_hw_encoding: true, chunk_duration_secs: 300 }
    }
}

impl Default for Config {
    /// `for_local_dir` with this machine's local data directory.
    fn default() -> (r: Config)
        ensures
            exists|local: Option<Seq<char>>| r.data_dir@ == app_dir_of(local),
            r.fps == 1,
            r.use_hw_encoding,
            r.chunk_duration_secs == 300,
    {
        let local = data_local_dir();
        Config::for_local_dir(&local)
    }
}

/// OCR rate used when none is configured, in frames per second.
pub fn default_ocr_fps() -> (r: u32)
    ensures
        r == 10,
{
    10
}

/// Port of the viewer when none is configured.
pub fn default_viewer_port() -> (r: u16)
    ensures
        r == 8080,
{
    8080
}

/// Video chunk length when none is configured, in seconds.
pub fn default_chunk_duration() -> (r: u64)
    ensures
        r == 300,
{
    300
}

/// Default of the switches that are on unless configured off.
pub fn default_true() -> (r: bool)
    ensures
        r,
{
    true
}

/// General settings of a combined run.
#[derive(Debug, Clone)]
pub struct GeneralConfig {
    pub data_dir: Option<String>,
    pub auto_download_models: bool,
}

impl Default for GeneralConfig {
    fn default() -> (r: GeneralConfig)
        ensures
            r.data_dir is None,
            r.auto_download_models,
    {
        GeneralConfig { data_dir: None, auto_download_models: true }
    }
}

/// OCR indexer settings.
#[derive(Debug, Clone)]
pub struct IndexConfig {
    pub ocr_fps: u32,
    pub ocr_language: Option<String>,
}

impl Default for IndexConfig {
    fn default() -> (r: IndexConfig)
        ensures
            r.ocr_fps == 10,
            r.ocr_language is None,
    {
        IndexConfig { ocr_fps: default_ocr_fps(), ocr_language: None }
    }
}

/// Audio capture and transcription settings.
#[derive(Debug, Clone)]
pub struct AudioConfig {
    pub enabled: bool,
    pub device: Option<String>,
}

impl Default for AudioConfig {
    fn default() -> (r: AudioConfig)
        ensures
            r.enabled,
            r.device is None,
    {
        AudioConfig { enabled: true, device: None }
    }
}

/// Viewer settings.
#[derive(Debug, Clone)]
pub struct ViewerConfig {
    pub port: u16,
}

impl Default for ViewerConfig {
    fn default() -> (r: ViewerConfig)
        ensures
            r.port == 8080,
    {
        ViewerConfig { port: default_viewer_port() }
    }
}

/// The data directory of a combined run, given the local data directory
/// `local`: the configured one, else `test-data` under the application
/// directory.
pub fn resolve_data_dir_in(general: &GeneralConfig, local: &Option<String>) -> (r: String)
    ensures
        general.data_dir matches Some(d) ==> r@ == d@,
        general.data_dir is None ==> r@ == joined_path(app_dir_of(opt_view(*local)), "test-data"@),
{
    match &general.data_dir {
        Some(d) => String::from_str(d.as_str()),
        None => app_data_path_in(local, "test-data"),
    }
}

/// `resolve_data_dir_in` with this machine's local data directory.
pub fn resolve_data_dir(general: &GeneralConfig) -> (r: String)
    ensures
        general.data_dir matches Some(d) ==> r@ == d@,
        general.data_dir is None ==> exists|local: Option<Seq<char>>|
            r@ == joined_path(app_dir_of(local), "test-data"@),
{
    let local = data_local_dir();
    resolve_data_dir_in(general, &local)
}

/// Video encoder settings.
#[derive(Debug, Clone)]
pub struct EncoderConfig {
    pub output_dir: String,
    pub chunk_duration_secs: u64,
    pub fps: u32,
    pub use_hw_encoding: bool,
    /// Constant rate factor; lower is better.
    pub quality: u32,
    /// Raw frames through the encoder's stdin rather than image files.
    pub use_piped_encoding: bool,
}

impl Default for EncoderConfig {
    fn default() -> (r: EncoderConfig)
        ensures
            r.output_dir@ == "videos"@,
            r.chunk_duration_secs == 300,
            r.fps == 1,
            r.use_hw_encoding,
            r.quality == 23,
            r.use_piped_encoding,
    {
        EncoderConfig {
            output_dir: String::from_str("videos"),
            chunk_duration_secs: 300,
            fps: 1,
            use_hw_encoding: true,
            quality: 23,
            use_piped_encoding: true,
        }
    }
}

/// Audio encoder settings.
#[derive(Debug, Clone)]
pub struct AudioEncoderConfig {
    pub output_dir: String,
    pub chunk_duration_secs: u32,
    pub sample_rate: u32,
    pub channels: u16,
}

impl Default for AudioEncoderConfig {
    fn default() -> (r: AudioEncoderConfig)
        ensures
            r.output_dir@ == "audio"@,
            r.chunk_duration_secs == 30,
            r.sample_rate == 16000,
            r.channels == 1,
    {
        AudioEncoderConfig {
            output_dir: String::from_str("audio"),
            chunk_duration_secs: 30,
            sample_rate: 16000,
            channels: 1,
        }
    }
}

/// Microphone capture settings.
#[derive(Debug, Clone)]
pub struct AudioCaptureConfig {
    pub device_id: Option<String>,
    pub is_loopback: bool,
    pub chunk_duration_secs: u32,
    pub target_sample_rate: u32,
    pub target_channels: u16,
}

impl Default for AudioCaptureConfig {
    fn default() -> (r: AudioCaptureConfig)
        ensures
            r.device_id is None,
            !r.is_loopback,
            r.chunk_duration_secs == 30,
            r.target_sample_rate == 16000,
            r.target_channels == 1,
    {
        AudioCaptureConfig {
            device_id: None,
            is_loopback: false,
            chunk_duration_secs: 30,
            target_sample_rate: 16000,
            target_channels: 1,
        }
    }
}

/// An audio endpoint as the platform describes it.
#[derive(Debug, Clone)]
pub struct AudioDeviceInfo {
    pub id: String,
    pub name: String,
    pub is_input: bool,
    pub is_default: bool,
    pub sample_rate: u32,
    pub channels: u16,
    pub bits_per_sample: u16,
}

/// Speech-to-text settings.
#[derive(Debug, Clone)]
pub struct SttConfig {
    pub model_dir: String,
    pub use_gpu: bool,
    /// Language code; `None` lets the model decide.
    pub language: Option<String>,
    pub num_threads: usize,
}

impl Default for SttConfig {
    fn default() -> (r: SttConfig)
        ensures
            r.use_gpu,
            r.language is None,
            r.num_threads == 4,
    {
        SttConfig { model_dir: default_model_dir(), use_gpu: true, language: None, num_threads: 4 }
    }
}

/// Failures of speech-to-text.
#[derive(Debug, Clone, PartialEq, Eq)]
pub enum SttError {
    ModelNotFound { path: String, message: String },
    ModelLoadError(String),
    AudioError(String),
    InferenceError(String),
    IoError(String),
    OrtError(String),
}

/// The components of a combined run, as tagged in the logs.
#[derive(Debug, Clone, Copy, PartialEq, Eq, Structural)]
pub enum Component {
    Orchestrator,
    Record,
    Index,
    AudioIndex,
    Viewer,
    Models,
}

impl Component {
    /// The component's log tag.
    pub fn as_str(&self) -> (r: &'static str)
        ensures
            r@ == match self {
                Component::Orchestrator => "MAIN"@,
                Component::Record => "RECORD"@,
                Component::Index => "INDEX"@,
                Component::AudioIndex => "AUDIO"@,
                Component::Viewer => "VIEWER"@,
                Component::Models => "MODELS"@,
            },
    {
        match self {
            Component::Orchestrator => "MAIN",
            Component::Record => "RECORD",
            Component::Index => "INDEX",
            Component::AudioIndex => "AUDIO",
            Component::Viewer => "VIEWER",
            Component::Models => "MODELS",
        }
    }
}

/// Life-cycle status of a component.
#[derive(Debug, Clone, Copy, PartialEq, Eq, Structural)]
pub enum ComponentStatus {
    Starting,
    Running,
    Stopped,
    Failed,
}

/// A component's status and when it last reported.
#[derive(Debug, Clone)]
pub struct ComponentHealth {
    pub name: String,
    pub status: ComponentStatus,
    /// Time of the last report, in milliseconds.
    pub last_heartbeat_ms: u64,
}

impl ComponentHealth {
    /// A component that is starting, reported at `now_ms`.
    pub fn new(name: &str, now_ms: u64) -> (r: ComponentHealth)
        ensures
            r.name@ == name@,
            r.status == ComponentStatus::Starting,
            r.last_heartbeat_ms == now_ms,
    {
        ComponentHealth { name: String::from_str(name), status: ComponentStatus::Starting, last_heartbeat_ms: now_ms }
    }

    /// Records `status` as reported at `now_ms`.
    pub fn update_status(&mut self, status: ComponentStatus, now_ms: u64)
        ensures
            final(self).name@ == old(self).name@,
            final(self).status == status,
            final(self).last_heartbeat_ms == now_ms,
    {
        self.status = status;
        self.last_heartbeat_ms = now_ms;
    }
}

} // verus!

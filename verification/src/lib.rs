//! Verified core of `imgen`, a command-line tool that generates images through
//! the Replicate API: the decisions that turn a prompt, a model schema and a
//! prompt file into prediction requests, and predictions into saved images.

pub mod input;
pub mod jobs;
pub mod json;
pub mod natural;
pub mod numeral;
pub mod output;
pub mod prediction;
pub mod prompt_file;
pub mod ratio;
pub mod schema;
pub mod text;

pub use input::build_input;
pub use jobs::{
    apply_defaults, build_jobs, job_settings, jobs_from_file, models_to_resolve, CliSettings,
    JobSettings, JobsError,
};
pub use json::{Json, JsonNumber};
pub use output::{plan_output, OutputPlan};
pub use prediction::{
    after_create, extract_image_url, poll_outcome, poll_url, retry_delay, timed_out, CreateOutcome,
    ExtractError, PollOutcome, Prediction, DEFAULT_HEIGHT, DEFAULT_MODEL, DEFAULT_WIDTH,
    MAX_RETRIES, POLL_INTERVAL_SECS, REPLICATE_API_BASE, REQUEST_TIMEOUT_SECS,
    RETRY_FALLBACK_SECS, TIMEOUT_SECS,
};
pub use prompt_file::{
    parse_prompt_file, prompt_file_from_json, DecodeError, Expected, Field, JobDefaults, PromptFileError, PromptJob,
    Unexpected,
};
pub use ratio::best_aspect_ratio;
pub use schema::{
    accepts_output_format, aspect_ratios, resolve_model, ModelVersion, ResolveError, ResolvedModel,
};

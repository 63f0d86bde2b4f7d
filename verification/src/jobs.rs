//! The list of jobs of a run, and the settings each job runs with.
//!
//! Each setting of a job is taken from the first place that sets it: the job
//! itself, the prompt file's `defaults`, the command line.

use vstd::prelude::*;
use crate::json::{json_text_error, json_text_value, parse_json_text, Json, JsonNumber};
use crate::prompt_file::{
    decode_prompt_file, job_views, opt_view, prompt_file_from_json, DefaultsView, JobDefaults, JobView,
    PromptFileError, PromptJob,
};
use crate::text::{str_eq, views};

verus! {

/// Why no jobs could be built.
#[derive(Debug)]
pub enum JobsError {
    /// The prompt file is not a valid prompt file.
    InvalidFile(PromptFileError),
    /// The prompt file holds no jobs.
    NoJobs,
    /// Neither a prompt nor a prompt file was given.
    MissingPrompt,
}

/// `a` if it is set, else `b`.
pub open spec fn or<T>(a: Option<T>, b: Option<T>) -> Option<T> {
    match a {
        Some(x) => Some(x),
        None => b,
    }
}

/// A job with the unset members taken from `defaults`.
pub open spec fn merge(job: JobView, d: DefaultsView) -> JobView {
    JobView {
        prompt: job.prompt,
        out: job.out,
        width: or(job.width, d.width),
        height: or(job.height, d.height),
        model: or(job.model, d.model),
        webp: or(job.webp, d.webp),
    }
}

/// The jobs of a prompt file, with its `defaults` applied.
pub open spec fn file_jobs(file: Json) -> Result<Seq<JobView>, JobsError> {
    match decode_prompt_file(file) {
        Err(e) => Err(JobsError::InvalidFile(e)),
        Ok((d, js)) => if js.len() == 0 {
            Err(JobsError::NoJobs)
        } else {
            Ok(js.map_values(|j: JobView| merge(j, d)))
        },
    }
}

/// The single job of a run without a prompt file.
pub open spec fn prompt_job(prompt: Seq<char>, out: Seq<char>) -> JobView {
    JobView { prompt, out, width: None, height: None, model: None, webp: None }
}

pub open spec fn rv_jobs(r: Result<Vec<PromptJob>, JobsError>) -> Result<Seq<JobView>, JobsError> {
    match r {
        Ok(v) => Ok(job_views(v@)),
        Err(e) => Err(e),
    }
}

/// `job` with its unset width, height, model and WebP quality taken from `defaults`.
pub fn apply_defaults(job: PromptJob, defaults: &JobDefaults) -> (r: PromptJob)
    ensures
        r@ == merge(job@, defaults@),
{
    let PromptJob { prompt, out, width, height, model, webp } = job;
    PromptJob {
        prompt,
        out,
        width: match width {
            Some(w) => Some(w),
            None => defaults.width,
        },
        height: match height {
            Some(h) => Some(h),
            None => defaults.height,
        },
        model: match model {
            Some(m) => Some(m),
            None => match &defaults.model {
                Some(m) => Some(m.clone()),
                None => None,
            },
        },
        webp: match webp {
            Some(q) => Some(q),
            None => match &defaults.webp {
                Some(q) => Some(q.duplicate()),
                None => None,
            },
        },
    }
}

/// The jobs of a prompt file with its `defaults` applied; a file without jobs
/// is rejected.
pub fn jobs_from_file(file: &Json) -> (r: Result<Vec<PromptJob>, JobsError>)
    ensures
        rv_jobs(r) == file_jobs(*file),
{
    let (defaults, jobs) = match prompt_file_from_json(file) {
        Ok(x) => x,
        Err(e) => {
            return Err(JobsError::InvalidFile(e));
        },
    };
    if jobs.len() == 0 {
        return Err(JobsError::NoJobs);
    }
    let ghost js = job_views(jobs@);
    let ghost d = defaults@;
    let mut merged: Vec<PromptJob> = Vec::new();
    let mut rest = jobs;
    let ghost all = rest@;
    let mut taken: usize = 0;
    let n = rest.len();
    assert(all.skip(0) =~= all);
    while taken < n
        invariant
            n == all.len(),
            taken <= n,
            rest@ == all.skip(taken as int),
            js == job_views(all),
            d == defaults@,
            job_views(merged@) == js.take(taken as int).map_values(|j: JobView| merge(j, d)),
        decreases n - taken,
    {
        let job = rest.remove(0);
        assert(all.skip(taken as int)[0] == all[taken as int]);
        let ghost jv = job@;
        assert(jv == js[taken as int]);
        let ghost before = merged@;
        merged.push(apply_defaults(job, &defaults));
        assert(job_views(merged@) =~= job_views(before).push(merge(jv, d)));
        taken = taken + 1;
        assert(rest@ =~= all.skip(taken as int));
        assert(js.take(taken as int).drop_last() =~= js.take(taken - 1));
        assert(job_views(merged@) =~= js.take(taken as int).map_values(|j: JobView| merge(j, d)));
    }
    assert(js.take(n as int) =~= js);
    Ok(merged)
}

/// The jobs of a run: those of the prompt file when its text is given, else
/// the single job for `prompt`, saved to `out`.
pub fn build_jobs(prompt_file: Option<&str>, prompt: Option<String>, out: String) -> (r: Result<
    Vec<PromptJob>,
    JobsError,
>)
    ensures
        match prompt_file {
            Some(t) => match json_text_value(t@) {
                None => r matches Err(JobsError::InvalidFile(PromptFileError::InvalidJson(m))) && m@
                    == json_text_error(t@),
                Some(f) => rv_jobs(r) == file_jobs(f),
            },
            None => match prompt {
                Some(p) => rv_jobs(r) == Ok::<Seq<JobView>, JobsError>(seq![prompt_job(p@, out@)]),
                None => rv_jobs(r) == Err::<Seq<JobView>, JobsError>(JobsError::MissingPrompt),
            },
        },
{
    match prompt_file {
        Some(t) => match parse_json_text(t) {
            Ok(f) => jobs_from_file(&f),
            Err(message) => Err(JobsError::InvalidFile(PromptFileError::InvalidJson(message))),
        },
        None => match prompt {
            Some(p) => {
                let mut v: Vec<PromptJob> = Vec::new();
                v.push(PromptJob { prompt: p, out, width: None, height: None, model: None, webp: None });
                assert(job_views(v@) =~= seq![prompt_job(v@[0].prompt@, out@)]);
                Ok(v)
            },
            None => Err(JobsError::MissingPrompt),
        },
    }
}

/// The settings given on the command line (or their built-in defaults).
pub struct CliSettings {
    pub model: String,
    pub width: u32,
    pub height: u32,
    pub webp: Option<JsonNumber>,
}

/// The settings a job runs with.
pub struct JobSettings {
    pub model: String,
    pub width: u32,
    pub height: u32,
    pub webp: Option<JsonNumber>,
}

pub open spec fn effective_model(job: JobView, cli_model: Seq<char>) -> Seq<char> {
    match job.model {
        Some(m) => m,
        None => cli_model,
    }
}

pub open spec fn value_or<T>(a: Option<T>, b: T) -> T {
    match a {
        Some(x) => x,
        None => b,
    }
}

/// The settings of `job`: its own where set, else those of the command line.
pub fn job_settings(job: &PromptJob, cli: &CliSettings) -> (r: JobSettings)
    ensures
        r.model@ == effective_model(job@, cli.model@),
        r.width == value_or(job.width, cli.width),
        r.height == value_or(job.height, cli.height),
        r.webp == or(job.webp, cli.webp),
{
    JobSettings {
        model: match &job.model {
            Some(m) => m.clone(),
            None => cli.model.clone(),
        },
        width: match job.width {
            Some(w) => w,
            None => cli.width,
        },
        height: match job.height {
            Some(h) => h,
            None => cli.height,
        },
        webp: match &job.webp {
            Some(q) => Some(q.duplicate()),
            None => match &cli.webp {
                Some(q) => Some(q.duplicate()),
                None => None,
            },
        },
    }
}

/// `s` without repetitions, each kept where it first occurs.
pub open spec fn distinct(s: Seq<Seq<char>>) -> Seq<Seq<char>>
    decreases s.len(),
{
    if s.len() == 0 {
        Seq::empty()
    } else {
        let d = distinct(s.drop_last());
        if d.contains(s.last()) {
            d
        } else {
            d.push(s.last())
        }
    }
}

/// The model of each job, in job order.
pub open spec fn job_models(jobs: Seq<JobView>, cli_model: Seq<char>) -> Seq<Seq<char>> {
    jobs.map_values(|j: JobView| effective_model(j, cli_model))
}

/// Whether `v` holds a string equal to `s`.
fn contains_str(v: &Vec<String>, s: &str) -> (r: bool)
    ensures
        r == views(v@).contains(s@),
{
    let n = v.len();
    for i in 0..n
        invariant
            n == v@.len(),
            forall|j: int| 0 <= j < i ==> v@[j]@ != s@,
    {
        if str_eq(v[i].as_str(), s) {
            assert(views(v@)[i as int] == s@);
            return true;
        }
    }
    proof {
        if views(v@).contains(s@) {
            let k = choose|k: int| 0 <= k < views(v@).len() && views(v@)[k] == s@;
            assert(v@[k]@ == s@);
        }
    }
    false
}

/// The models that the jobs use, each once, in the order of their first job.
pub fn models_to_resolve(jobs: &Vec<PromptJob>, cli_model: &str) -> (r: Vec<String>)
    ensures
        views(r@) == distinct(job_models(job_views(jobs@), cli_model@)),
{
    let ghost ms = job_models(job_views(jobs@), cli_model@);
    let mut r: Vec<String> = Vec::new();
    let n = jobs.len();
    assert(views(r@) =~= distinct(ms.take(0)));
    for i in 0..n
        invariant
            n == jobs@.len(),
            ms == job_models(job_views(jobs@), cli_model@),
            views(r@) == distinct(ms.take(i as int)),
    {
        let model: &str = match &jobs[i].model {
            Some(m) => m.as_str(),
            None => cli_model,
        };
        assert(ms[i as int] == model@);
        assert(ms.take(i + 1).drop_last() =~= ms.take(i as int));
        if !contains_str(&r, model) {
            let ghost before = r@;
            r.push(String::from_str(model));
            assert(views(r@) =~= views(before).push(model@));
        }
    }
    assert(ms.take(n as int) =~= ms);
    r
}

/// The value of the first of `a` and `b` that is set, else `c`.
pub open spec fn first_set<T>(a: Option<T>, b: Option<T>, c: T) -> T {
    match a {
        Some(x) => x,
        None => match b {
            Some(y) => y,
            None => c,
        },
    }
}

/// Each setting of a job of a prompt file comes from the job itself, else
/// from the file's `defaults`, else from the command line.
pub proof fn lemma_settings_precedence(
    file: Json,
    i: int,
    cli_model: Seq<char>,
    cli_width: u32,
    cli_height: u32,
    cli_webp: Option<JsonNumber>,
)
    requires
        file_jobs(file) is Ok,
        0 <= i < file_jobs(file)->Ok_0.len(),
    ensures
        ({
            let (d, raw) = decode_prompt_file(file)->Ok_0;
            let job = file_jobs(file)->Ok_0[i];
            &&& effective_model(job, cli_model) == first_set(raw[i].model, d.model, cli_model)
            &&& value_or(job.width, cli_width) == first_set(raw[i].width, d.width, cli_width)
            &&& value_or(job.height, cli_height) == first_set(raw[i].height, d.height, cli_height)
            &&& or(job.webp, cli_webp) == or(or(raw[i].webp, d.webp), cli_webp)
            &&& job.prompt == raw[i].prompt
            &&& job.out == raw[i].out
        }),
{
}

/// Every model is resolved once: the models to resolve are exactly the models
/// of the jobs, without repetition.
pub proof fn lemma_models_resolved_once(models: Seq<Seq<char>>)
    ensures
        forall|a: int, b: int|
            0 <= a < b < distinct(models).len() ==> distinct(models)[a] != distinct(models)[b],
        forall|m: Seq<char>| distinct(models).contains(m) <==> models.contains(m),
    decreases models.len(),
{
    if models.len() > 0 {
        let rest = models.drop_last();
        lemma_models_resolved_once(rest);
        let d = distinct(rest);
        assert forall|m: Seq<char>| distinct(models).contains(m) <==> models.contains(m) by {
            if models.contains(m) && m != models.last() {
                let k = choose|k: int| 0 <= k < models.len() && models[k] == m;
                assert(rest[k] == m);
            }
            if rest.contains(m) {
                let k = choose|k: int| 0 <= k < rest.len() && rest[k] == m;
                assert(models[k] == m);
            }
            if !d.contains(models.last()) && distinct(models).contains(m) && m != models.last() {
                let k = choose|k: int| 0 <= k < distinct(models).len() && distinct(models)[k] == m;
                assert(d[k] == m);
            }
            if !d.contains(models.last()) && d.contains(m) {
                let k = choose|k: int| 0 <= k < d.len() && d[k] == m;
                assert(distinct(models)[k] == m);
            }
            if m == models.last() {
                assert(models[models.len() - 1] == m);
                if !d.contains(m) {
                    assert(distinct(models)[d.len() as int] == m);
                }
            }
        }
    }
}

} // verus!

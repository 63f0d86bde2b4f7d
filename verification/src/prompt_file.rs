//! The prompt file: a JSON array of jobs, or an object with optional
//! `defaults` and a required `jobs` array.
//!
//! A job or a `defaults` section is read as a struct: from an object, member
//! by member in the order in which the object holds them (serde_json's map,
//! read from text, holds them sorted by key, a repeated key keeping its last
//! value); unknown members are ignored, a repeated one is an error, missing
//! optional ones are absent. From an array, item by item in field order.

use vstd::prelude::*;
use crate::json::{json_text_error, json_text_value, parse_json_text, str_of, Json, JsonNumber};
use crate::text::str_eq;

verus! {

/// A JSON value that did not fit, with what a message names of it: the
/// value of a boolean, a number or a string, the kind of anything else.
#[derive(Debug)]
pub enum Unexpected {
    Null,
    Bool(bool),
    Number(JsonNumber),
    Str(String),
    Array,
    Object,
}

/// What a value should have been.
#[derive(Debug, PartialEq, Eq, Structural, Clone, Copy)]
pub enum Expected {
    /// A string.
    Str,
    /// An integer from 0 to `u32::MAX`.
    U32,
    /// A number.
    Number,
    /// A job.
    Job,
    /// A `defaults` section.
    Defaults,
    /// An array of jobs.
    Jobs,
}

/// A member of a job, of a `defaults` section or of the file object.
#[derive(Debug, PartialEq, Eq, Structural, Clone, Copy)]
pub enum Field {
    Prompt,
    Out,
    Width,
    Height,
    Model,
    Webp,
    Defaults,
    Jobs,
}

/// Why a part of a prompt file could not be read.
#[derive(Debug)]
pub enum DecodeError {
    /// The value `0` where `1` was expected.
    InvalidType(Unexpected, Expected),
    /// An integer outside the range of `1`.
    InvalidValue(JsonNumber, Expected),
    MissingField(Field),
    DuplicateField(Field),
    /// An array of `0` items for a struct that needs more.
    InvalidLength(usize, Expected),
    /// An array of `0` items for a struct with fewer fields.
    TrailingItems(usize),
}

/// Why a prompt file was rejected.
#[derive(Debug)]
pub enum PromptFileError {
    /// The text is not JSON; serde_json's message.
    InvalidJson(String),
    /// The top-level value is neither an array nor an object.
    NotArrayOrObject,
    /// The top-level array is not an array of jobs.
    JobsArray(DecodeError),
    /// The top-level object is not `{ "defaults": ..., "jobs": [...] }`.
    FileObject(DecodeError),
}

/// One job of a prompt file.
#[derive(Debug)]
pub struct PromptJob {
    pub prompt: String,
    pub out: String,
    pub width: Option<u32>,
    pub height: Option<u32>,
    pub model: Option<String>,
    /// WebP quality, as the JSON number written in the file.
    pub webp: Option<JsonNumber>,
}

/// The `defaults` section of a prompt file.
#[derive(Debug)]
pub struct JobDefaults {
    pub width: Option<u32>,
    pub height: Option<u32>,
    pub model: Option<String>,
    pub webp: Option<JsonNumber>,
}

pub struct JobView {
    pub prompt: Seq<char>,
    pub out: Seq<char>,
    pub width: Option<u32>,
    pub height: Option<u32>,
    pub model: Option<Seq<char>>,
    pub webp: Option<JsonNumber>,
}

pub struct DefaultsView {
    pub width: Option<u32>,
    pub height: Option<u32>,
    pub model: Option<Seq<char>>,
    pub webp: Option<JsonNumber>,
}

pub open spec fn opt_view(o: Option<String>) -> Option<Seq<char>> {
    match o {
        Some(s) => Some(s@),
        None => None,
    }
}

impl View for PromptJob {
    type V = JobView;

    open spec fn view(&self) -> JobView {
        JobView {
            prompt: self.prompt@,
            out: self.out@,
            width: self.width,
            height: self.height,
            model: opt_view(self.model),
            webp: self.webp,
        }
    }
}

impl View for JobDefaults {
    type V = DefaultsView;

    open spec fn view(&self) -> DefaultsView {
        DefaultsView {
            width: self.width,
            height: self.height,
            model: opt_view(self.model),
            webp: self.webp,
        }
    }
}

pub open spec fn no_defaults() -> DefaultsView {
    DefaultsView { width: None, height: None, model: None, webp: None }
}

pub open spec fn unexpected_of(j: Json) -> Unexpected {
    match j {
        Json::Null => Unexpected::Null,
        Json::Bool(b) => Unexpected::Bool(b),
        Json::Number(n) => Unexpected::Number(n),
        Json::Str(s) => Unexpected::Str(s),
        Json::Array(_) => Unexpected::Array,
        Json::Object(_) => Unexpected::Object,
    }
}

pub open spec fn dec_string(j: Json) -> Result<Seq<char>, DecodeError> {
    match j {
        Json::Str(s) => Ok(s@),
        _ => Err(DecodeError::InvalidType(unexpected_of(j), Expected::Str)),
    }
}

pub open spec fn dec_opt_u32(j: Json) -> Result<Option<u32>, DecodeError> {
    match j {
        Json::Null => Ok(None),
        Json::Number(JsonNumber::PosInt(n)) => if n <= u32::MAX {
            Ok(Some(n as u32))
        } else {
            Err(DecodeError::InvalidValue(JsonNumber::PosInt(n), Expected::U32))
        },
        Json::Number(JsonNumber::NegInt(n)) => Err(
            DecodeError::InvalidValue(JsonNumber::NegInt(n), Expected::U32),
        ),
        _ => Err(DecodeError::InvalidType(unexpected_of(j), Expected::U32)),
    }
}

pub open spec fn dec_opt_string(j: Json) -> Result<Option<Seq<char>>, DecodeError> {
    match j {
        Json::Null => Ok(None),
        Json::Str(s) => Ok(Some(s@)),
        _ => Err(DecodeError::InvalidType(unexpected_of(j), Expected::Str)),
    }
}

pub open spec fn dec_opt_number(j: Json) -> Result<Option<JsonNumber>, DecodeError> {
    match j {
        Json::Null => Ok(None),
        Json::Number(n) => Ok(Some(n)),
        _ => Err(DecodeError::InvalidType(unexpected_of(j), Expected::Number)),
    }
}

/// The members of a job read so far; `Some` once a member was read.
pub struct JobFields {
    pub prompt: Option<Seq<char>>,
    pub out: Option<Seq<char>>,
    pub width: Option<Option<u32>>,
    pub height: Option<Option<u32>>,
    pub model: Option<Option<Seq<char>>>,
    pub webp: Option<Option<JsonNumber>>,
}

pub open spec fn job_member(acc: JobFields, e: (String, Json)) -> Result<JobFields, DecodeError> {
    let k = e.0@;
    let v = e.1;
    if k == "prompt"@ {
        if acc.prompt is Some {
            Err(DecodeError::DuplicateField(Field::Prompt))
        } else {
            match dec_string(v) {
                Ok(x) => Ok(JobFields { prompt: Some(x), ..acc }),
                Err(err) => Err(err),
            }
        }
    } else if k == "out"@ {
        if acc.out is Some {
            Err(DecodeError::DuplicateField(Field::Out))
        } else {
            match dec_string(v) {
                Ok(x) => Ok(JobFields { out: Some(x), ..acc }),
                Err(err) => Err(err),
            }
        }
    } else if k == "width"@ {
        if acc.width is Some {
            Err(DecodeError::DuplicateField(Field::Width))
        } else {
            match dec_opt_u32(v) {
                Ok(x) => Ok(JobFields { width: Some(x), ..acc }),
                Err(err) => Err(err),
            }
        }
    } else if k == "height"@ {
        if acc.height is Some {
            Err(DecodeError::DuplicateField(Field::Height))
        } else {
            match dec_opt_u32(v) {
                Ok(x) => Ok(JobFields { height: Some(x), ..acc }),
                Err(err) => Err(err),
            }
        }
    } else if k == "model"@ {
        if acc.model is Some {
            Err(DecodeError::DuplicateField(Field::Model))
        } else {
            match dec_opt_string(v) {
                Ok(x) => Ok(JobFields { model: Some(x), ..acc }),
                Err(err) => Err(err),
            }
        }
    } else if k == "webp"@ {
        if acc.webp is Some {
            Err(DecodeError::DuplicateField(Field::Webp))
        } else {
            match dec_opt_number(v) {
                Ok(x) => Ok(JobFields { webp: Some(x), ..acc }),
                Err(err) => Err(err),
            }
        }
    } else {
        Ok(acc)
    }
}

pub open spec fn job_fields(es: Seq<(String, Json)>) -> Result<JobFields, DecodeError>
    decreases es.len(),
{
    if es.len() == 0 {
        Ok(JobFields { prompt: None, out: None, width: None, height: None, model: None, webp: None })
    } else {
        match job_fields(es.drop_last()) {
            Ok(acc) => job_member(acc, es.last()),
            Err(err) => Err(err),
        }
    }
}

pub open spec fn flat<T>(o: Option<Option<T>>) -> Option<T> {
    match o {
        Some(Some(x)) => Some(x),
        _ => None,
    }
}

pub open spec fn finish_job(f: JobFields) -> Result<JobView, DecodeError> {
    match (f.prompt, f.out) {
        (None, _) => Err(DecodeError::MissingField(Field::Prompt)),
        (Some(_), None) => Err(DecodeError::MissingField(Field::Out)),
        (Some(p), Some(o)) => Ok(
            JobView {
                prompt: p,
                out: o,
                width: flat(f.width),
                height: flat(f.height),
                model: flat(f.model),
                webp: flat(f.webp),
            },
        ),
    }
}

/// A job written as an array: `[prompt, out, width, height, model, webp]`,
/// the last four optional.
pub open spec fn job_items(items: Seq<Json>) -> Result<JobView, DecodeError> {
    if items.len() < 1 {
        Err(DecodeError::InvalidLength(0, Expected::Job))
    } else {
        match dec_string(items[0]) {
            Err(err) => Err(err),
            Ok(p) => if items.len() < 2 {
                Err(DecodeError::InvalidLength(1, Expected::Job))
            } else {
                match dec_string(items[1]) {
                    Err(err) => Err(err),
                    Ok(o) => match (if items.len() > 2 {
                        dec_opt_u32(items[2])
                    } else {
                        Ok(None)
                    }) {
                        Err(err) => Err(err),
                        Ok(w) => match (if items.len() > 3 {
                            dec_opt_u32(items[3])
                        } else {
                            Ok(None)
                        }) {
                            Err(err) => Err(err),
                            Ok(h) => match (if items.len() > 4 {
                                dec_opt_string(items[4])
                            } else {
                                Ok(None)
                            }) {
                                Err(err) => Err(err),
                                Ok(m) => match (if items.len() > 5 {
                                    dec_opt_number(items[5])
                                } else {
                                    Ok(None)
                                }) {
                                    Err(err) => Err(err),
                                    Ok(q) => if items.len() > 6 {
                                        Err(DecodeError::TrailingItems(items.len() as usize))
                                    } else {
                                        Ok(
                                            JobView {
                                                prompt: p,
                                                out: o,
                                                width: w,
                                                height: h,
                                                model: m,
                                                webp: q,
                                            },
                                        )
                                    },
                                },
                            },
                        },
                    },
                }
            },
        }
    }
}

pub open spec fn decode_job(j: Json) -> Result<JobView, DecodeError> {
    match j {
        Json::Object(es) => match job_fields(es@) {
            Ok(f) => finish_job(f),
            Err(err) => Err(err),
        },
        Json::Array(items) => job_items(items@),
        _ => Err(DecodeError::InvalidType(unexpected_of(j), Expected::Job)),
    }
}

/// Every item decoded as a job; the first failure otherwise.
pub open spec fn decode_jobs(items: Seq<Json>) -> Result<Seq<JobView>, DecodeError>
    decreases items.len(),
{
    if items.len() == 0 {
        Ok(Seq::empty())
    } else {
        match decode_jobs(items.drop_last()) {
            Err(err) => Err(err),
            Ok(js) => match decode_job(items.last()) {
                Ok(job) => Ok(js.push(job)),
                Err(err) => Err(err),
            },
        }
    }
}

pub struct DefaultsFields {
    pub width: Option<Option<u32>>,
    pub height: Option<Option<u32>>,
    pub model: Option<Option<Seq<char>>>,
    pub webp: Option<Option<JsonNumber>>,
}

pub open spec fn defaults_member(acc: DefaultsFields, e: (String, Json)) -> Result<DefaultsFields, DecodeError> {
    let k = e.0@;
    let v = e.1;
    if k == "width"@ {
        if acc.width is Some {
            Err(DecodeError::DuplicateField(Field::Width))
        } else {
            match dec_opt_u32(v) {
                Ok(x) => Ok(DefaultsFields { width: Some(x), ..acc }),
                Err(err) => Err(err),
            }
        }
    } else if k == "height"@ {
        if acc.height is Some {
            Err(DecodeError::DuplicateField(Field::Height))
        } else {
            match dec_opt_u32(v) {
                Ok(x) => Ok(DefaultsFields { height: Some(x), ..acc }),
                Err(err) => Err(err),
            }
        }
    } else if k == "model"@ {
        if acc.model is Some {
            Err(DecodeError::DuplicateField(Field::Model))
        } else {
            match dec_opt_string(v) {
                Ok(x) => Ok(DefaultsFields { model: Some(x), ..acc }),
                Err(err) => Err(err),
            }
        }
    } else if k == "webp"@ {
        if acc.webp is Some {
            Err(DecodeError::DuplicateField(Field::Webp))
        } else {
            match dec_opt_number(v) {
                Ok(x) => Ok(DefaultsFields { webp: Some(x), ..acc }),
                Err(err) => Err(err),
            }
        }
    } else {
        Ok(acc)
    }
}

pub open spec fn defaults_fields(es: Seq<(String, Json)>) -> Result<DefaultsFields, DecodeError>
    decreases es.len(),
{
    if es.len() == 0 {
        Ok(DefaultsFields { width: None, height: None, model: None, webp: None })
    } else {
        match defaults_fields(es.drop_last()) {
            Ok(acc) => defaults_member(acc, es.last()),
            Err(err) => Err(err),
        }
    }
}

/// A `defaults` section written as an array: `[width, height, model, webp]`.
pub open spec fn defaults_items(items: Seq<Json>) -> Result<DefaultsView, DecodeError> {
    match (if items.len() > 0 {
        dec_opt_u32(items[0])
    } else {
        Ok(None)
    }) {
        Err(err) => Err(err),
        Ok(w) => match (if items.len() > 1 {
            dec_opt_u32(items[1])
        } else {
            Ok(None)
        }) {
            Err(err) => Err(err),
            Ok(h) => match (if items.len() > 2 {
                dec_opt_string(items[2])
            } else {
                Ok(None)
            }) {
                Err(err) => Err(err),
                Ok(m) => match (if items.len() > 3 {
                    dec_opt_number(items[3])
                } else {
                    Ok(None)
                }) {
                    Err(err) => Err(err),
                    Ok(q) => if items.len() > 4 {
                        Err(DecodeError::TrailingItems(items.len() as usize))
                    } else {
                        Ok(DefaultsView { width: w, height: h, model: m, webp: q })
                    },
                },
            },
        },
    }
}

pub open spec fn decode_defaults(j: Json) -> Result<DefaultsView, DecodeError> {
    match j {
        Json::Object(es) => match defaults_fields(es@) {
            Ok(f) => Ok(
                DefaultsView {
                    width: flat(f.width),
                    height: flat(f.height),
                    model: flat(f.model),
                    webp: flat(f.webp),
                },
            ),
            Err(err) => Err(err),
        },
        Json::Array(items) => defaults_items(items@),
        _ => Err(DecodeError::InvalidType(unexpected_of(j), Expected::Defaults)),
    }
}

pub open spec fn decode_job_list(j: Json) -> Result<Seq<JobView>, DecodeError> {
    match j {
        Json::Array(items) => decode_jobs(items@),
        _ => Err(DecodeError::InvalidType(unexpected_of(j), Expected::Jobs)),
    }
}

pub struct FileFields {
    pub defaults: Option<DefaultsView>,
    pub jobs: Option<Seq<JobView>>,
}

pub open spec fn file_member(acc: FileFields, e: (String, Json)) -> Result<FileFields, DecodeError> {
    let k = e.0@;
    let v = e.1;
    if k == "defaults"@ {
        if acc.defaults is Some {
            Err(DecodeError::DuplicateField(Field::Defaults))
        } else {
            match decode_defaults(v) {
                Ok(x) => Ok(FileFields { defaults: Some(x), ..acc }),
                Err(err) => Err(err),
            }
        }
    } else if k == "jobs"@ {
        if acc.jobs is Some {
            Err(DecodeError::DuplicateField(Field::Jobs))
        } else {
            match decode_job_list(v) {
                Ok(x) => Ok(FileFields { jobs: Some(x), ..acc }),
                Err(err) => Err(err),
            }
        }
    } else {
        Ok(acc)
    }
}

pub open spec fn file_fields(es: Seq<(String, Json)>) -> Result<FileFields, DecodeError>
    decreases es.len(),
{
    if es.len() == 0 {
        Ok(FileFields { defaults: None, jobs: None })
    } else {
        match file_fields(es.drop_last()) {
            Ok(acc) => file_member(acc, es.last()),
            Err(err) => Err(err),
        }
    }
}

pub open spec fn finish_file(f: FileFields) -> Result<(DefaultsView, Seq<JobView>), DecodeError> {
    match f.jobs {
        None => Err(DecodeError::MissingField(Field::Jobs)),
        Some(js) => Ok(
            (
                match f.defaults {
                    Some(d) => d,
                    None => no_defaults(),
                },
                js,
            ),
        ),
    }
}

/// What a prompt file holds: its `defaults` (none for the array form) and its jobs.
pub open spec fn decode_prompt_file(v: Json) -> Result<(DefaultsView, Seq<JobView>), PromptFileError> {
    match v {
        Json::Array(items) => match decode_jobs(items@) {
            Ok(js) => Ok((no_defaults(), js)),
            Err(err) => Err(PromptFileError::JobsArray(err)),
        },
        Json::Object(es) => match file_fields(es@) {
            Ok(f) => match finish_file(f) {
                Ok(x) => Ok(x),
                Err(err) => Err(PromptFileError::FileObject(err)),
            },
            Err(err) => Err(PromptFileError::FileObject(err)),
        },
        _ => Err(PromptFileError::NotArrayOrObject),
    }
}


pub open spec fn rv_str(r: Result<String, DecodeError>) -> Result<Seq<char>, DecodeError> {
    match r {
        Ok(s) => Ok(s@),
        Err(e) => Err(e),
    }
}

pub open spec fn rv_opt_str(r: Result<Option<String>, DecodeError>) -> Result<Option<Seq<char>>, DecodeError> {
    match r {
        Ok(s) => Ok(opt_view(s)),
        Err(e) => Err(e),
    }
}

pub open spec fn rv_job(r: Result<PromptJob, DecodeError>) -> Result<JobView, DecodeError> {
    match r {
        Ok(j) => Ok(j@),
        Err(e) => Err(e),
    }
}

pub open spec fn rv_defaults(r: Result<JobDefaults, DecodeError>) -> Result<DefaultsView, DecodeError> {
    match r {
        Ok(d) => Ok(d@),
        Err(e) => Err(e),
    }
}

pub open spec fn job_views(v: Seq<PromptJob>) -> Seq<JobView> {
    v.map_values(|j: PromptJob| j@)
}

pub open spec fn rv_jobs(r: Result<Vec<PromptJob>, DecodeError>) -> Result<Seq<JobView>, DecodeError> {
    match r {
        Ok(v) => Ok(job_views(v@)),
        Err(e) => Err(e),
    }
}

pub open spec fn oov(o: Option<Option<String>>) -> Option<Option<Seq<char>>> {
    match o {
        Some(x) => Some(opt_view(x)),
        None => None,
    }
}

fn unexpected_exec(j: &Json) -> (u: Unexpected)
    ensures
        u == unexpected_of(*j),
{
    match j {
        Json::Null => Unexpected::Null,
        Json::Bool(b) => Unexpected::Bool(*b),
        Json::Number(n) => Unexpected::Number(n.duplicate()),
        Json::Str(s) => Unexpected::Str(s.clone()),
        Json::Array(_) => Unexpected::Array,
        Json::Object(_) => Unexpected::Object,
    }
}

fn dec_string_exec(j: &Json) -> (r: Result<String, DecodeError>)
    ensures
        rv_str(r) == dec_string(*j),
{
    match j {
        Json::Str(s) => Ok(s.clone()),
        _ => Err(DecodeError::InvalidType(unexpected_exec(j), Expected::Str)),
    }
}

fn dec_opt_u32_exec(j: &Json) -> (r: Result<Option<u32>, DecodeError>)
    ensures
        r == dec_opt_u32(*j),
{
    match j {
        Json::Null => Ok(None),
        Json::Number(JsonNumber::PosInt(n)) => if *n <= u32::MAX as u64 {
            Ok(Some(*n as u32))
        } else {
            Err(DecodeError::InvalidValue(JsonNumber::PosInt(*n), Expected::U32))
        },
        Json::Number(JsonNumber::NegInt(n)) => Err(
            DecodeError::InvalidValue(JsonNumber::NegInt(*n), Expected::U32),
        ),
        _ => Err(DecodeError::InvalidType(unexpected_exec(j), Expected::U32)),
    }
}

fn dec_opt_string_exec(j: &Json) -> (r: Result<Option<String>, DecodeError>)
    ensures
        rv_opt_str(r) == dec_opt_string(*j),
{
    match j {
        Json::Null => Ok(None),
        Json::Str(s) => Ok(Some(s.clone())),
        _ => Err(DecodeError::InvalidType(unexpected_exec(j), Expected::Str)),
    }
}

fn dec_opt_number_exec(j: &Json) -> (r: Result<Option<JsonNumber>, DecodeError>)
    ensures
        r == dec_opt_number(*j),
{
    match j {
        Json::Null => Ok(None),
        Json::Number(n) => Ok(Some(n.duplicate())),
        _ => Err(DecodeError::InvalidType(unexpected_exec(j), Expected::Number)),
    }
}

fn opt_u32_at(items: &Vec<Json>, i: usize) -> (r: Result<Option<u32>, DecodeError>)
    ensures
        r == (if items@.len() > i {
            dec_opt_u32(items@[i as int])
        } else {
            Ok(None)
        }),
{
    if items.len() > i {
        dec_opt_u32_exec(&items[i])
    } else {
        Ok(None)
    }
}

fn opt_string_at(items: &Vec<Json>, i: usize) -> (r: Result<Option<String>, DecodeError>)
    ensures
        rv_opt_str(r) == (if items@.len() > i {
            dec_opt_string(items@[i as int])
        } else {
            Ok(None)
        }),
{
    if items.len() > i {
        dec_opt_string_exec(&items[i])
    } else {
        Ok(None)
    }
}

fn opt_number_at(items: &Vec<Json>, i: usize) -> (r: Result<Option<JsonNumber>, DecodeError>)
    ensures
        r == (if items@.len() > i {
            dec_opt_number(items@[i as int])
        } else {
            Ok(None)
        }),
{
    if items.len() > i {
        dec_opt_number_exec(&items[i])
    } else {
        Ok(None)
    }
}

proof fn lemma_job_fields_err(es: Seq<(String, Json)>, i: int)
    requires
        0 <= i <= es.len(),
        job_fields(es.take(i)) is Err,
    ensures
        job_fields(es) == job_fields(es.take(i)),
    decreases es.len() - i,
{
    if i < es.len() {
        assert(es.take(i + 1).drop_last() =~= es.take(i));
        lemma_job_fields_err(es, i + 1);
    } else {
        assert(es.take(i) =~= es);
    }
}

proof fn lemma_defaults_fields_err(es: Seq<(String, Json)>, i: int)
    requires
        0 <= i <= es.len(),
        defaults_fields(es.take(i)) is Err,
    ensures
        defaults_fields(es) == defaults_fields(es.take(i)),
    decreases es.len() - i,
{
    if i < es.len() {
        assert(es.take(i + 1).drop_last() =~= es.take(i));
        lemma_defaults_fields_err(es, i + 1);
    } else {
        assert(es.take(i) =~= es);
    }
}

proof fn lemma_file_fields_err(es: Seq<(String, Json)>, i: int)
    requires
        0 <= i <= es.len(),
        file_fields(es.take(i)) is Err,
    ensures
        file_fields(es) == file_fields(es.take(i)),
    decreases es.len() - i,
{
    if i < es.len() {
        assert(es.take(i + 1).drop_last() =~= es.take(i));
        lemma_file_fields_err(es, i + 1);
    } else {
        assert(es.take(i) =~= es);
    }
}

proof fn lemma_decode_jobs_err(items: Seq<Json>, i: int)
    requires
        0 <= i <= items.len(),
        decode_jobs(items.take(i)) is Err,
    ensures
        decode_jobs(items) == decode_jobs(items.take(i)),
    decreases items.len() - i,
{
    if i < items.len() {
        assert(items.take(i + 1).drop_last() =~= items.take(i));
        lemma_decode_jobs_err(items, i + 1);
    } else {
        assert(items.take(i) =~= items);
    }
}

/// A job written as an object.
fn job_from_members(es: &Vec<(String, Json)>) -> (r: Result<PromptJob, DecodeError>)
    ensures
        rv_job(r) == (match job_fields(es@) {
            Ok(f) => finish_job(f),
            Err(err) => Err(err),
        }),
{
    let mut prompt: Option<String> = None;
    let mut out: Option<String> = None;
    let mut width: Option<Option<u32>> = None;
    let mut height: Option<Option<u32>> = None;
    let mut model: Option<Option<String>> = None;
    let mut webp: Option<Option<JsonNumber>> = None;
    let n = es.len();
    assert(es@.take(0) =~= Seq::<(String, Json)>::empty());
    for i in 0..n
        invariant
            n == es@.len(),
            job_fields(es@.take(i as int)) == Ok::<JobFields, DecodeError>(
                JobFields {
                    prompt: opt_view(prompt),
                    out: opt_view(out),
                    width,
                    height,
                    model: oov(model),
                    webp,
                },
            ),
    {
        let ghost acc = JobFields {
            prompt: opt_view(prompt),
            out: opt_view(out),
            width,
            height,
            model: oov(model),
            webp,
        };
        assert(es@.take(i + 1).drop_last() =~= es@.take(i as int));
        assert(es@.take(i + 1).last() == es@[i as int]);
        let ghost next = job_member(acc, es@[i as int]);
        assert(job_fields(es@.take(i + 1)) == next);
        let k = es[i].0.as_str();
        let v = &es[i].1;
        if str_eq(k, "prompt") {
            if prompt.is_some() {
                proof {
                    lemma_job_fields_err(es@, i + 1);
                }
                return Err(DecodeError::DuplicateField(Field::Prompt));
            }
            match dec_string_exec(v) {
                Ok(x) => {
                    prompt = Some(x);
                },
                Err(e) => {
                    proof {
                        lemma_job_fields_err(es@, i + 1);
                    }
                    return Err(e);
                },
            }
        } else if str_eq(k, "out") {
            if out.is_some() {
                proof {
                    lemma_job_fields_err(es@, i + 1);
                }
                return Err(DecodeError::DuplicateField(Field::Out));
            }
            match dec_string_exec(v) {
                Ok(x) => {
                    out = Some(x);
                },
                Err(e) => {
                    proof {
                        lemma_job_fields_err(es@, i + 1);
                    }
                    return Err(e);
                },
            }
        } else if str_eq(k, "width") {
            if width.is_some() {
                proof {
                    lemma_job_fields_err(es@, i + 1);
                }
                return Err(DecodeError::DuplicateField(Field::Width));
            }
            match dec_opt_u32_exec(v) {
                Ok(x) => {
                    width = Some(x);
                },
                Err(e) => {
                    proof {
                        lemma_job_fields_err(es@, i + 1);
                    }
                    return Err(e);
                },
            }
        } else if str_eq(k, "height") {
            if height.is_some() {
                proof {
                    lemma_job_fields_err(es@, i + 1);
                }
                return Err(DecodeError::DuplicateField(Field::Height));
            }
            match dec_opt_u32_exec(v) {
                Ok(x) => {
                    height = Some(x);
                },
                Err(e) => {
                    proof {
                        lemma_job_fields_err(es@, i + 1);
                    }
                    return Err(e);
                },
            }
        } else if str_eq(k, "model") {
            if model.is_some() {
                proof {
                    lemma_job_fields_err(es@, i + 1);
                }
                return Err(DecodeError::DuplicateField(Field::Model));
            }
            match dec_opt_string_exec(v) {
                Ok(x) => {
                    model = Some(x);
                },
                Err(e) => {
                    proof {
                        lemma_job_fields_err(es@, i + 1);
                    }
                    return Err(e);
                },
            }
        } else if str_eq(k, "webp") {
            if webp.is_some() {
                proof {
                    lemma_job_fields_err(es@, i + 1);
                }
                return Err(DecodeError::DuplicateField(Field::Webp));
            }
            match dec_opt_number_exec(v) {
                Ok(x) => {
                    webp = Some(x);
                },
                Err(e) => {
                    proof {
                        lemma_job_fields_err(es@, i + 1);
                    }
                    return Err(e);
                },
            }
        }
    }
    assert(es@.take(n as int) =~= es@);
    let prompt = match prompt {
        Some(p) => p,
        None => {
            return Err(DecodeError::MissingField(Field::Prompt));
        },
    };
    let out = match out {
        Some(o) => o,
        None => {
            return Err(DecodeError::MissingField(Field::Out));
        },
    };
    Ok(
        PromptJob {
            prompt,
            out,
            width: match width {
                Some(Some(x)) => Some(x),
                _ => None,
            },
            height: match height {
                Some(Some(x)) => Some(x),
                _ => None,
            },
            model: match model {
                Some(Some(x)) => Some(x),
                _ => None,
            },
            webp: match webp {
                Some(Some(x)) => Some(x),
                _ => None,
            },
        },
    )
}

/// A job written as an array.
fn job_from_items(items: &Vec<Json>) -> (r: Result<PromptJob, DecodeError>)
    ensures
        rv_job(r) == job_items(items@),
{
    if items.len() < 1 {
        return Err(DecodeError::InvalidLength(0, Expected::Job));
    }
    let prompt = dec_string_exec(&items[0])?;
    if items.len() < 2 {
        return Err(DecodeError::InvalidLength(1, Expected::Job));
    }
    let out = dec_string_exec(&items[1])?;
    let width = opt_u32_at(items, 2)?;
    let height = opt_u32_at(items, 3)?;
    let model = opt_string_at(items, 4)?;
    let webp = opt_number_at(items, 5)?;
    if items.len() > 6 {
        return Err(DecodeError::TrailingItems(items.len()));
    }
    Ok(PromptJob { prompt, out, width, height, model, webp })
}

/// One job of a prompt file.
fn decode_job_exec(j: &Json) -> (r: Result<PromptJob, DecodeError>)
    ensures
        rv_job(r) == decode_job(*j),
{
    match j {
        Json::Object(es) => job_from_members(es),
        Json::Array(items) => job_from_items(items),
        _ => Err(DecodeError::InvalidType(unexpected_exec(j), Expected::Job)),
    }
}

/// Every item of `items` as a job.
fn decode_jobs_exec(items: &Vec<Json>) -> (r: Result<Vec<PromptJob>, DecodeError>)
    ensures
        rv_jobs(r) == decode_jobs(items@),
{
    let mut jobs: Vec<PromptJob> = Vec::new();
    let n = items.len();
    assert(items@.take(0) =~= Seq::<Json>::empty());
    assert(job_views(jobs@) =~= Seq::<JobView>::empty());
    for i in 0..n
        invariant
            n == items@.len(),
            decode_jobs(items@.take(i as int)) == Ok::<Seq<JobView>, DecodeError>(job_views(jobs@)),
    {
        assert(items@.take(i + 1).drop_last() =~= items@.take(i as int));
        assert(items@.take(i + 1).last() == items@[i as int]);
        match decode_job_exec(&items[i]) {
            Ok(job) => {
                let ghost before = jobs@;
                jobs.push(job);
                assert(job_views(jobs@) =~= job_views(before).push(jobs@.last()@));
            },
            Err(e) => {
                proof {
                    lemma_decode_jobs_err(items@, i + 1);
                }
                return Err(e);
            },
        }
    }
    assert(items@.take(n as int) =~= items@);
    Ok(jobs)
}

/// A `defaults` section written as an object.
fn defaults_from_members(es: &Vec<(String, Json)>) -> (r: Result<JobDefaults, DecodeError>)
    ensures
        rv_defaults(r) == (match defaults_fields(es@) {
            Ok(f) => Ok(
                DefaultsView {
                    width: flat(f.width),
                    height: flat(f.height),
                    model: flat(f.model),
                    webp: flat(f.webp),
                },
            ),
            Err(err) => Err(err),
        }),
{
    let mut width: Option<Option<u32>> = None;
    let mut height: Option<Option<u32>> = None;
    let mut model: Option<Option<String>> = None;
    let mut webp: Option<Option<JsonNumber>> = None;
    let n = es.len();
    assert(es@.take(0) =~= Seq::<(String, Json)>::empty());
    for i in 0..n
        invariant
            n == es@.len(),
            defaults_fields(es@.take(i as int)) == Ok::<DefaultsFields, DecodeError>(
                DefaultsFields { width, height, model: oov(model), webp },
            ),
    {
        let ghost acc = DefaultsFields { width, height, model: oov(model), webp };
        assert(es@.take(i + 1).drop_last() =~= es@.take(i as int));
        assert(es@.take(i + 1).last() == es@[i as int]);
        assert(defaults_fields(es@.take(i + 1)) == defaults_member(acc, es@[i as int]));
        let k = es[i].0.as_str();
        let v = &es[i].1;
        if str_eq(k, "width") {
            if width.is_some() {
                proof {
                    lemma_defaults_fields_err(es@, i + 1);
                }
                return Err(DecodeError::DuplicateField(Field::Width));
            }
            match dec_opt_u32_exec(v) {
                Ok(x) => {
                    width = Some(x);
                },
                Err(e) => {
                    proof {
                        lemma_defaults_fields_err(es@, i + 1);
                    }
                    return Err(e);
                },
            }
        } else if str_eq(k, "height") {
            if height.is_some() {
                proof {
                    lemma_defaults_fields_err(es@, i + 1);
                }
                return Err(DecodeError::DuplicateField(Field::Height));
            }
            match dec_opt_u32_exec(v) {
                Ok(x) => {
                    height = Some(x);
                },
                Err(e) => {
                    proof {
                        lemma_defaults_fields_err(es@, i + 1);
                    }
                    return Err(e);
                },
            }
        } else if str_eq(k, "model") {
            if model.is_some() {
                proof {
                    lemma_defaults_fields_err(es@, i + 1);
                }
                return Err(DecodeError::DuplicateField(Field::Model));
            }
            match dec_opt_string_exec(v) {
                Ok(x) => {
                    model = Some(x);
                },
                Err(e) => {
                    proof {
                        lemma_defaults_fields_err(es@, i + 1);
                    }
                    return Err(e);
                },
            }
        } else if str_eq(k, "webp") {
            if webp.is_some() {
                proof {
                    lemma_defaults_fields_err(es@, i + 1);
                }
                return Err(DecodeError::DuplicateField(Field::Webp));
            }
            match dec_opt_number_exec(v) {
                Ok(x) => {
                    webp = Some(x);
                },
                Err(e) => {
                    proof {
                        lemma_defaults_fields_err(es@, i + 1);
                    }
                    return Err(e);
                },
            }
        }
    }
    assert(es@.take(n as int) =~= es@);
    Ok(
        JobDefaults {
            width: match width {
                Some(Some(x)) => Some(x),
                _ => None,
            },
            height: match height {
                Some(Some(x)) => Some(x),
                _ => None,
            },
            model: match model {
                Some(Some(x)) => Some(x),
                _ => None,
            },
            webp: match webp {
                Some(Some(x)) => Some(x),
                _ => None,
            },
        },
    )
}

/// A `defaults` section written as an array.
fn defaults_from_items(items: &Vec<Json>) -> (r: Result<JobDefaults, DecodeError>)
    ensures
        rv_defaults(r) == defaults_items(items@),
{
    let width = opt_u32_at(items, 0)?;
    let height = opt_u32_at(items, 1)?;
    let model = opt_string_at(items, 2)?;
    let webp = opt_number_at(items, 3)?;
    if items.len() > 4 {
        return Err(DecodeError::TrailingItems(items.len()));
    }
    Ok(JobDefaults { width, height, model, webp })
}

/// The `defaults` section of a prompt file.
fn decode_defaults_exec(j: &Json) -> (r: Result<JobDefaults, DecodeError>)
    ensures
        rv_defaults(r) == decode_defaults(*j),
{
    match j {
        Json::Object(es) => defaults_from_members(es),
        Json::Array(items) => defaults_from_items(items),
        _ => Err(DecodeError::InvalidType(unexpected_exec(j), Expected::Defaults)),
    }
}

/// The `jobs` member of a prompt file object.
fn decode_job_list_exec(j: &Json) -> (r: Result<Vec<PromptJob>, DecodeError>)
    ensures
        rv_jobs(r) == decode_job_list(*j),
{
    match j {
        Json::Array(items) => decode_jobs_exec(items),
        _ => Err(DecodeError::InvalidType(unexpected_exec(j), Expected::Jobs)),
    }
}

pub open spec fn rv_file(r: Result<(JobDefaults, Vec<PromptJob>), DecodeError>) -> Result<
    (DefaultsView, Seq<JobView>),
    DecodeError,
> {
    match r {
        Ok((d, js)) => Ok((d@, job_views(js@))),
        Err(e) => Err(e),
    }
}

pub open spec fn rv_prompt_file(r: Result<(JobDefaults, Vec<PromptJob>), PromptFileError>) -> Result<
    (DefaultsView, Seq<JobView>),
    PromptFileError,
> {
    match r {
        Ok((d, js)) => Ok((d@, job_views(js@))),
        Err(e) => Err(e),
    }
}

/// A prompt file written as an object.
fn file_from_members(es: &Vec<(String, Json)>) -> (r: Result<(JobDefaults, Vec<PromptJob>), DecodeError>)
    ensures
        rv_file(r) == (match file_fields(es@) {
            Ok(f) => finish_file(f),
            Err(err) => Err(err),
        }),
{
    let mut defaults: Option<JobDefaults> = None;
    let mut jobs: Option<Vec<PromptJob>> = None;
    let n = es.len();
    assert(es@.take(0) =~= Seq::<(String, Json)>::empty());
    for i in 0..n
        invariant
            n == es@.len(),
            file_fields(es@.take(i as int)) == Ok::<FileFields, DecodeError>(
                FileFields {
                    defaults: match defaults {
                        Some(d) => Some(d@),
                        None => None,
                    },
                    jobs: match jobs {
                        Some(js) => Some(job_views(js@)),
                        None => None,
                    },
                },
            ),
    {
        assert(es@.take(i + 1).drop_last() =~= es@.take(i as int));
        assert(es@.take(i + 1).last() == es@[i as int]);
        let k = es[i].0.as_str();
        let v = &es[i].1;
        if str_eq(k, "defaults") {
            if defaults.is_some() {
                proof {
                    lemma_file_fields_err(es@, i + 1);
                }
                return Err(DecodeError::DuplicateField(Field::Defaults));
            }
            match decode_defaults_exec(v) {
                Ok(x) => {
                    defaults = Some(x);
                },
                Err(e) => {
                    proof {
                        lemma_file_fields_err(es@, i + 1);
                    }
                    return Err(e);
                },
            }
        } else if str_eq(k, "jobs") {
            if jobs.is_some() {
                proof {
                    lemma_file_fields_err(es@, i + 1);
                }
                return Err(DecodeError::DuplicateField(Field::Jobs));
            }
            match decode_job_list_exec(v) {
                Ok(x) => {
                    jobs = Some(x);
                },
                Err(e) => {
                    proof {
                        lemma_file_fields_err(es@, i + 1);
                    }
                    return Err(e);
                },
            }
        }
    }
    assert(es@.take(n as int) =~= es@);
    let jobs = match jobs {
        Some(js) => js,
        None => {
            return Err(DecodeError::MissingField(Field::Jobs));
        },
    };
    let defaults = match defaults {
        Some(d) => d,
        None => JobDefaults { width: None, height: None, model: None, webp: None },
    };
    Ok((defaults, jobs))
}

/// Reads the text of a prompt file: JSON holding an array of jobs, or an
/// object with optional `defaults` and a required `jobs` array.
pub fn parse_prompt_file(content: &str) -> (r: Result<(JobDefaults, Vec<PromptJob>), PromptFileError>)
    ensures
        match json_text_value(content@) {
            None => r matches Err(PromptFileError::InvalidJson(m)) && m@ == json_text_error(content@),
            Some(v) => rv_prompt_file(r) == decode_prompt_file(v),
        },
{
    match parse_json_text(content) {
        Ok(v) => prompt_file_from_json(&v),
        Err(message) => Err(PromptFileError::InvalidJson(message)),
    }
}

/// Reads a prompt file already parsed as JSON.
pub fn prompt_file_from_json(value: &Json) -> (r: Result<(JobDefaults, Vec<PromptJob>), PromptFileError>)
    ensures
        rv_prompt_file(r) == decode_prompt_file(*value),
{
    match value {
        Json::Array(items) => match decode_jobs_exec(items) {
            Ok(jobs) => Ok((JobDefaults { width: None, height: None, model: None, webp: None }, jobs)),
            Err(e) => Err(PromptFileError::JobsArray(e)),
        },
        Json::Object(es) => match file_from_members(es) {
            Ok(x) => Ok(x),
            Err(e) => Err(PromptFileError::FileObject(e)),
        },
        _ => Err(PromptFileError::NotArrayOrObject),
    }
}


/// The integer written in `j`, when it fits in a `u32`.
pub open spec fn u32_in(j: Json) -> Option<u32> {
    match j {
        Json::Number(JsonNumber::PosInt(n)) => if n <= u32::MAX {
            Some(n as u32)
        } else {
            None
        },
        _ => None,
    }
}

/// The number written in `j`.
pub open spec fn number_in(j: Json) -> Option<JsonNumber> {
    match j {
        Json::Number(n) => Some(n),
        _ => None,
    }
}

proof fn lemma_member_names_differ()
    ensures
        "width"@ != "height"@,
        "width"@ != "model"@,
        "width"@ != "webp"@,
        "height"@ != "model"@,
        "height"@ != "webp"@,
        "model"@ != "webp"@,
        "prompt"@ != "out"@,
        "prompt"@ != "width"@,
        "prompt"@ != "height"@,
        "prompt"@ != "model"@,
        "prompt"@ != "webp"@,
        "out"@ != "width"@,
        "out"@ != "height"@,
        "out"@ != "model"@,
        "out"@ != "webp"@,
{
    reveal_strlit("prompt");
    reveal_strlit("out");
    reveal_strlit("width");
    reveal_strlit("height");
    reveal_strlit("model");
    reveal_strlit("webp");
    assert("width"@[0] != "model"@[0]);
    assert("prompt"@[0] != "height"@[0]);
    assert("width"@.len() != "webp"@.len());
    assert("out"@.len() != "webp"@.len());
}

proof fn lemma_defaults_fields_present(es: Seq<(String, Json)>, i: int)
    requires
        0 <= i < es.len(),
    ensures
        defaults_fields(es) matches Ok(f) ==> {
            &&& es[i].0@ == "width"@ ==> f.width == Some(u32_in(es[i].1))
            &&& es[i].0@ == "height"@ ==> f.height == Some(u32_in(es[i].1))
            &&& es[i].0@ == "model"@ ==> f.model == Some(str_of(Some(es[i].1)))
            &&& es[i].0@ == "webp"@ ==> f.webp == Some(number_in(es[i].1))
        },
    decreases es.len(),
{
    lemma_member_names_differ();
    let p = es.drop_last();
    let e = es.last();
    assert(e == es[es.len() - 1]);
    if let Ok(f) = defaults_fields(es) {
        if let Ok(acc) = defaults_fields(p) {
            assert(defaults_member(acc, e) == Ok::<DefaultsFields, DecodeError>(f));
            if i < es.len() - 1 {
                lemma_defaults_fields_present(p, i);
                assert(p[i] == es[i]);
                let k = es[i].0@;
                if k == "width"@ {
                    assert(acc.width is Some);
                    assert(e.0@ != "width"@);
                    assert(f.width == acc.width);
                } else if k == "height"@ {
                    assert(acc.height is Some);
                    assert(e.0@ != "height"@);
                    assert(f.height == acc.height);
                } else if k == "model"@ {
                    assert(acc.model is Some);
                    assert(e.0@ != "model"@);
                    assert(f.model == acc.model);
                } else if k == "webp"@ {
                    assert(acc.webp is Some);
                    assert(e.0@ != "webp"@);
                    assert(f.webp == acc.webp);
                }
            }
        } else {
            assert(false);
        }
    }
}

proof fn lemma_defaults_fields_absent(es: Seq<(String, Json)>)
    ensures
        defaults_fields(es) matches Ok(f) ==> {
            &&& (forall|j: int| 0 <= j < es.len() ==> es[j].0@ != "width"@) ==> f.width is None
            &&& (forall|j: int| 0 <= j < es.len() ==> es[j].0@ != "height"@) ==> f.height is None
            &&& (forall|j: int| 0 <= j < es.len() ==> es[j].0@ != "model"@) ==> f.model is None
            &&& (forall|j: int| 0 <= j < es.len() ==> es[j].0@ != "webp"@) ==> f.webp is None
        },
    decreases es.len(),
{
    if es.len() > 0 {
        let p = es.drop_last();
        lemma_defaults_fields_absent(p);
        assert forall|j: int| 0 <= j < p.len() implies p[j] == es[j] by {}
        assert(es.last() == es[es.len() - 1]);
    }
}

/// A `defaults` object takes each setting from the member of that name: a
/// member `width` (or `height`) holding an integer `n` gives `n`, a member
/// `model` holding a string gives that string, a member `webp` holding a
/// number gives that number, and a `null` member gives nothing.
pub proof fn lemma_defaults_by_name(v: Vec<(String, Json)>, i: int)
    requires
        0 <= i < v@.len(),
    ensures
        decode_defaults(Json::Object(v)) matches Ok(d) ==> {
            &&& v@[i].0@ == "width"@ ==> d.width == u32_in(v@[i].1)
            &&& v@[i].0@ == "height"@ ==> d.height == u32_in(v@[i].1)
            &&& v@[i].0@ == "model"@ ==> d.model == str_of(Some(v@[i].1))
            &&& v@[i].0@ == "webp"@ ==> d.webp == number_in(v@[i].1)
        },
{
    lemma_defaults_fields_present(v@, i);
}

/// A setting without a member of its name is absent from a `defaults` object.
pub proof fn lemma_defaults_absent(v: Vec<(String, Json)>)
    ensures
        decode_defaults(Json::Object(v)) matches Ok(d) ==> {
            &&& (forall|j: int| 0 <= j < v@.len() ==> v@[j].0@ != "width"@) ==> d.width is None
            &&& (forall|j: int| 0 <= j < v@.len() ==> v@[j].0@ != "height"@) ==> d.height is None
            &&& (forall|j: int| 0 <= j < v@.len() ==> v@[j].0@ != "model"@) ==> d.model is None
            &&& (forall|j: int| 0 <= j < v@.len() ==> v@[j].0@ != "webp"@) ==> d.webp is None
        },
{
    lemma_defaults_fields_absent(v@);
}

proof fn lemma_job_fields_present(es: Seq<(String, Json)>, i: int)
    requires
        0 <= i < es.len(),
    ensures
        job_fields(es) matches Ok(f) ==> {
            &&& es[i].0@ == "prompt"@ ==> f.prompt is Some && f.prompt == str_of(Some(es[i].1))
            &&& es[i].0@ == "out"@ ==> f.out is Some && f.out == str_of(Some(es[i].1))
            &&& es[i].0@ == "width"@ ==> f.width == Some(u32_in(es[i].1))
            &&& es[i].0@ == "height"@ ==> f.height == Some(u32_in(es[i].1))
            &&& es[i].0@ == "model"@ ==> f.model == Some(str_of(Some(es[i].1)))
            &&& es[i].0@ == "webp"@ ==> f.webp == Some(number_in(es[i].1))
        },
    decreases es.len(),
{
    lemma_member_names_differ();
    let p = es.drop_last();
    let e = es.last();
    assert(e == es[es.len() - 1]);
    if let Ok(f) = job_fields(es) {
        if let Ok(acc) = job_fields(p) {
            assert(job_member(acc, e) == Ok::<JobFields, DecodeError>(f));
            if i < es.len() - 1 {
                lemma_job_fields_present(p, i);
                assert(p[i] == es[i]);
                let k = es[i].0@;
                if k == "prompt"@ {
                    assert(acc.prompt is Some);
                    assert(e.0@ != "prompt"@);
                    assert(f.prompt == acc.prompt);
                } else if k == "out"@ {
                    assert(acc.out is Some);
                    assert(e.0@ != "out"@);
                    assert(f.out == acc.out);
                } else if k == "width"@ {
                    assert(acc.width is Some);
                    assert(e.0@ != "width"@);
                    assert(f.width == acc.width);
                } else if k == "height"@ {
                    assert(acc.height is Some);
                    assert(e.0@ != "height"@);
                    assert(f.height == acc.height);
                } else if k == "model"@ {
                    assert(acc.model is Some);
                    assert(e.0@ != "model"@);
                    assert(f.model == acc.model);
                } else if k == "webp"@ {
                    assert(acc.webp is Some);
                    assert(e.0@ != "webp"@);
                    assert(f.webp == acc.webp);
                }
            }
        } else {
            assert(false);
        }
    }
}

proof fn lemma_job_fields_absent(es: Seq<(String, Json)>)
    ensures
        job_fields(es) matches Ok(f) ==> {
            &&& (forall|j: int| 0 <= j < es.len() ==> es[j].0@ != "width"@) ==> f.width is None
            &&& (forall|j: int| 0 <= j < es.len() ==> es[j].0@ != "height"@) ==> f.height is None
            &&& (forall|j: int| 0 <= j < es.len() ==> es[j].0@ != "model"@) ==> f.model is None
            &&& (forall|j: int| 0 <= j < es.len() ==> es[j].0@ != "webp"@) ==> f.webp is None
        },
    decreases es.len(),
{
    if es.len() > 0 {
        let p = es.drop_last();
        lemma_job_fields_absent(p);
        assert forall|j: int| 0 <= j < p.len() implies p[j] == es[j] by {}
        assert(es.last() == es[es.len() - 1]);
    }
}

/// A job object takes each field from the member of that name: `prompt` and
/// `out` from the strings they hold, `width` and `height` from the integers
/// they hold, `model` from its string and `webp` from its number, a `null`
/// member giving nothing.
pub proof fn lemma_job_by_name(v: Vec<(String, Json)>, i: int)
    requires
        0 <= i < v@.len(),
    ensures
        decode_job(Json::Object(v)) matches Ok(job) ==> {
            &&& v@[i].0@ == "prompt"@ ==> str_of(Some(v@[i].1)) == Some(job.prompt)
            &&& v@[i].0@ == "out"@ ==> str_of(Some(v@[i].1)) == Some(job.out)
            &&& v@[i].0@ == "width"@ ==> job.width == u32_in(v@[i].1)
            &&& v@[i].0@ == "height"@ ==> job.height == u32_in(v@[i].1)
            &&& v@[i].0@ == "model"@ ==> job.model == str_of(Some(v@[i].1))
            &&& v@[i].0@ == "webp"@ ==> job.webp == number_in(v@[i].1)
        },
{
    lemma_job_fields_present(v@, i);
}

/// An optional field without a member of its name is absent from a job.
pub proof fn lemma_job_absent(v: Vec<(String, Json)>)
    ensures
        decode_job(Json::Object(v)) matches Ok(job) ==> {
            &&& (forall|j: int| 0 <= j < v@.len() ==> v@[j].0@ != "width"@) ==> job.width is None
            &&& (forall|j: int| 0 <= j < v@.len() ==> v@[j].0@ != "height"@) ==> job.height is None
            &&& (forall|j: int| 0 <= j < v@.len() ==> v@[j].0@ != "model"@) ==> job.model is None
            &&& (forall|j: int| 0 <= j < v@.len() ==> v@[j].0@ != "webp"@) ==> job.webp is None
        },
{
    lemma_job_fields_absent(v@);
}

} // verus!

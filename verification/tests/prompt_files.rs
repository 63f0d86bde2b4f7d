use imgen::{
    build_jobs, job_settings, jobs_from_file, models_to_resolve, parse_prompt_file,
    prompt_file_from_json, CliSettings,
    DecodeError, Expected, Field, Json, JsonNumber, JobsError, PromptFileError, PromptJob,
    Unexpected,
};

fn json(text: &str) -> Json {
    fn conv(v: &serde_json::Value) -> Json {
        match v {
            serde_json::Value::Null => Json::Null,
            serde_json::Value::Bool(b) => Json::Bool(*b),
            serde_json::Value::Number(n) => {
                if let Some(u) = n.as_u64() {
                    Json::Number(JsonNumber::PosInt(u))
                } else if let Some(i) = n.as_i64() {
                    Json::Number(JsonNumber::NegInt(i))
                } else {
                    Json::Number(JsonNumber::Float(n.to_string()))
                }
            }
            serde_json::Value::String(s) => Json::Str(s.clone()),
            serde_json::Value::Array(a) => Json::Array(a.iter().map(conv).collect()),
            serde_json::Value::Object(o) => {
                Json::Object(o.iter().map(|(k, v)| (k.clone(), conv(v))).collect())
            }
        }
    }
    conv(&serde_json::from_str(text).unwrap())
}

fn cli() -> CliSettings {
    CliSettings {
        model: "black-forest-labs/flux-1.1-pro".to_string(),
        width: 1024,
        height: 768,
        webp: None,
    }
}

fn quality(q: &Option<JsonNumber>) -> Option<u64> {
    match q {
        Some(JsonNumber::PosInt(n)) => Some(*n),
        _ => None,
    }
}

const README_FILE: &str = r#"{
  "defaults": { "model": "black-forest-labs/flux-schnell", "width": 1024, "height": 1024 },
  "jobs": [
    { "prompt": "A mountain landscape at sunset", "out": "images/mountain.png" },
    { "prompt": "A futuristic cityscape with neon lights", "out": "images/city.png", "width": 1920, "height": 1080 },
    { "prompt": "A coffee shop interior", "out": "images/coffee.png", "model": "stability-ai/sdxl" }
  ]
}"#;

#[test]
fn plain_array_of_jobs() {
    let f = r#"[{ "prompt": "A mountain landscape", "out": "images/mountain.png" },
                     { "prompt": "A cityscape at night", "out": "images/city.png" }]"#;
    let (d, jobs) = parse_prompt_file(f).unwrap();
    assert!(d.width.is_none() && d.height.is_none() && d.model.is_none() && d.webp.is_none());
    assert_eq!(jobs.len(), 2);
    assert_eq!(jobs[1].prompt, "A cityscape at night");
    assert_eq!(jobs[1].out, "images/city.png");
    assert!(jobs[0].width.is_none() && jobs[0].model.is_none());
}

#[test]
fn job_values_beat_defaults_and_defaults_beat_the_command_line() {
    let jobs = jobs_from_file(&json(README_FILE)).unwrap();
    assert_eq!(jobs.len(), 3);
    let s0 = job_settings(&jobs[0], &cli());
    assert_eq!((s0.model.as_str(), s0.width, s0.height), ("black-forest-labs/flux-schnell", 1024, 1024));
    let s1 = job_settings(&jobs[1], &cli());
    assert_eq!((s1.model.as_str(), s1.width, s1.height), ("black-forest-labs/flux-schnell", 1920, 1080));
    let s2 = job_settings(&jobs[2], &cli());
    assert_eq!((s2.model.as_str(), s2.width, s2.height), ("stability-ai/sdxl", 1024, 1024));
}

#[test]
fn command_line_fills_what_the_file_leaves_open() {
    let f = r#"[{ "prompt": "p", "out": "o.png", "height": 500 }]"#;
    let jobs = jobs_from_file(&json(f)).unwrap();
    let mut c = cli();
    c.webp = Some(JsonNumber::PosInt(60));
    let s = job_settings(&jobs[0], &c);
    assert_eq!((s.model.as_str(), s.width, s.height), ("black-forest-labs/flux-1.1-pro", 1024, 500));
    assert_eq!(quality(&s.webp), Some(60));
}

#[test]
fn webp_quality_precedence() {
    let f = r#"{"defaults":{"webp":80},"jobs":[{"prompt":"a","out":"a.png"},{"prompt":"b","out":"b.png","webp":50}]}"#;
    let jobs = jobs_from_file(&json(f)).unwrap();
    let mut c = cli();
    c.webp = Some(JsonNumber::PosInt(10));
    assert_eq!(quality(&job_settings(&jobs[0], &c).webp), Some(80));
    assert_eq!(quality(&job_settings(&jobs[1], &c).webp), Some(50));
}

#[test]
fn missing_out_is_reported() {
    let f = r#"[{ "prompt": "A mountain landscape" }]"#;
    assert!(matches!(
        parse_prompt_file(f),
        Err(PromptFileError::JobsArray(DecodeError::MissingField(Field::Out)))
    ));
    let f = r#"[{ "out": "x.png" }]"#;
    assert!(matches!(
        parse_prompt_file(f),
        Err(PromptFileError::JobsArray(DecodeError::MissingField(Field::Prompt)))
    ));
}

#[test]
fn empty_jobs_are_rejected() {
    assert!(matches!(jobs_from_file(&json(r#"{"jobs":[]}"#)), Err(JobsError::NoJobs)));
    assert!(matches!(jobs_from_file(&json("[]")), Err(JobsError::NoJobs)));
}

#[test]
fn object_without_jobs_is_rejected() {
    assert!(matches!(
        parse_prompt_file((r#"{"defaults":{}}"#)),
        Err(PromptFileError::FileObject(DecodeError::MissingField(Field::Jobs)))
    ));
}

#[test]
fn other_top_level_values_are_rejected() {
    assert!(matches!(parse_prompt_file(("\"x\"")), Err(PromptFileError::NotArrayOrObject)));
    assert!(matches!(parse_prompt_file(("3")), Err(PromptFileError::NotArrayOrObject)));
    assert!(matches!(
        jobs_from_file(&json("null")),
        Err(JobsError::InvalidFile(PromptFileError::NotArrayOrObject))
    ));
}

#[test]
fn wrong_types_are_reported() {
    let f = r#"[{ "prompt": 1, "out": "o" }]"#;
    assert!(matches!(
        parse_prompt_file(f),
        Err(PromptFileError::JobsArray(DecodeError::InvalidType(Unexpected::Number(JsonNumber::PosInt(1)), Expected::Str)))
    ));
    let f = r#"[{ "prompt": "p", "out": "o", "width": 1.5 }]"#;
    assert!(matches!(
        parse_prompt_file(f),
        Err(PromptFileError::JobsArray(DecodeError::InvalidType(Unexpected::Number(JsonNumber::Float(_)), Expected::U32)))
    ));
    let f = r#"[{ "prompt": "p", "out": "o", "webp": "high" }]"#;
    match parse_prompt_file(f) {
        Err(PromptFileError::JobsArray(DecodeError::InvalidType(Unexpected::Str(s), Expected::Number))) => {
            assert_eq!(s, "high")
        }
        _ => panic!("expected a type error naming the string"),
    }
    let f = r#"[{ "prompt": true, "out": "o" }]"#;
    assert!(matches!(
        parse_prompt_file(f),
        Err(PromptFileError::JobsArray(DecodeError::InvalidType(Unexpected::Bool(true), Expected::Str)))
    ));
    let f = r#"["just a prompt"]"#;
    assert!(matches!(
        parse_prompt_file(f),
        Err(PromptFileError::JobsArray(DecodeError::InvalidType(Unexpected::Str(_), Expected::Job)))
    ));
    let f = r#"{"defaults": 3, "jobs": []}"#;
    assert!(matches!(
        parse_prompt_file(f),
        Err(PromptFileError::FileObject(DecodeError::InvalidType(Unexpected::Number(JsonNumber::PosInt(3)), Expected::Defaults)))
    ));
    let f = r#"{"jobs": {}}"#;
    assert!(matches!(
        parse_prompt_file(f),
        Err(PromptFileError::FileObject(DecodeError::InvalidType(Unexpected::Object, Expected::Jobs)))
    ));
}

#[test]
fn sizes_outside_u32_are_rejected() {
    let f = r#"[{ "prompt": "p", "out": "o", "width": 4294967296 }]"#;
    assert!(matches!(
        parse_prompt_file(f),
        Err(PromptFileError::JobsArray(DecodeError::InvalidValue(JsonNumber::PosInt(4294967296), Expected::U32)))
    ));
    let f = r#"[{ "prompt": "p", "out": "o", "height": -1 }]"#;
    assert!(matches!(
        parse_prompt_file(f),
        Err(PromptFileError::JobsArray(DecodeError::InvalidValue(JsonNumber::NegInt(-1), Expected::U32)))
    ));
    let f = r#"[{ "prompt": "p", "out": "o", "height": 4294967295, "width": null }]"#;
    let (_, jobs) = parse_prompt_file(f).unwrap();
    assert_eq!(jobs[0].height, Some(u32::MAX));
    assert_eq!(jobs[0].width, None);
}

#[test]
fn repeated_members_are_rejected() {
    let j = Json::Object(vec![
        ("prompt".to_string(), Json::Str("a".to_string())),
        ("prompt".to_string(), Json::Str("b".to_string())),
        ("out".to_string(), Json::Str("o".to_string())),
    ]);
    assert!(matches!(
        prompt_file_from_json(&Json::Array(vec![j])),
        Err(PromptFileError::JobsArray(DecodeError::DuplicateField(Field::Prompt)))
    ));
}

#[test]
fn unknown_members_are_ignored() {
    let f = r#"[{ "prompt": "p", "out": "o", "seed": 42 }]"#;
    let (_, jobs) = parse_prompt_file(f).unwrap();
    assert_eq!(jobs.len(), 1);
}

#[test]
fn jobs_written_as_arrays_are_read_in_field_order() {
    let f = r#"[["p", "o.png", 640, null, "m/x", 70]]"#;
    let (_, jobs) = parse_prompt_file(f).unwrap();
    assert_eq!(jobs[0].prompt, "p");
    assert_eq!(jobs[0].out, "o.png");
    assert_eq!(jobs[0].width, Some(640));
    assert_eq!(jobs[0].height, None);
    assert_eq!(jobs[0].model.as_deref(), Some("m/x"));
    assert_eq!(quality(&jobs[0].webp), Some(70));
    assert!(matches!(
        parse_prompt_file((r#"[["p"]]"#)),
        Err(PromptFileError::JobsArray(DecodeError::InvalidLength(1, Expected::Job)))
    ));
    assert!(matches!(
        parse_prompt_file((r#"[["p","o",1,2,"m",3,4]]"#)),
        Err(PromptFileError::JobsArray(DecodeError::TrailingItems(7)))
    ));
}

#[test]
fn defaults_written_as_an_array() {
    let f = r#"{"defaults":[100, 200], "jobs":[{"prompt":"p","out":"o"}]}"#;
    let (d, _) = parse_prompt_file(f).unwrap();
    assert_eq!((d.width, d.height), (Some(100), Some(200)));
    assert!(matches!(
        parse_prompt_file((r#"{"defaults":[1,2,"m",3,4], "jobs":[]}"#)),
        Err(PromptFileError::FileObject(DecodeError::TrailingItems(5)))
    ));
}

#[test]
fn a_prompt_or_a_file_is_required() {
    assert!(matches!(build_jobs(None, None, "output.png".to_string()), Err(JobsError::MissingPrompt)));
    let jobs = build_jobs(None, Some("A sunset".to_string()), "sunset.png".to_string()).unwrap();
    assert_eq!(jobs.len(), 1);
    assert_eq!(jobs[0].prompt, "A sunset");
    assert_eq!(jobs[0].out, "sunset.png");
    assert!(jobs[0].width.is_none() && jobs[0].height.is_none() && jobs[0].model.is_none());
}

#[test]
fn the_file_wins_over_the_prompt_argument() {
    let f = r#"[{"prompt":"from file","out":"f.png"}]"#;
    let jobs = build_jobs(Some(f), Some("ignored".to_string()), "x.png".to_string()).unwrap();
    assert_eq!(jobs[0].prompt, "from file");
    assert_eq!(jobs[0].out, "f.png");
}

#[test]
fn each_model_is_resolved_once_in_job_order() {
    let mk = |m: Option<&str>| PromptJob {
        prompt: "p".to_string(),
        out: "o".to_string(),
        width: None,
        height: None,
        model: m.map(|s| s.to_string()),
        webp: None,
    };
    let jobs = vec![mk(Some("b/one")), mk(None), mk(Some("b/one")), mk(Some("c/two")), mk(None)];
    let models = models_to_resolve(&jobs, "a/default");
    assert_eq!(models, vec!["b/one", "a/default", "c/two"]);
    assert!(models_to_resolve(&vec![], "a/default").is_empty());
}

#[test]
fn text_that_is_not_json_is_rejected() {
    assert!(matches!(parse_prompt_file("{ not json"), Err(PromptFileError::InvalidJson(_))));
    assert!(matches!(
        build_jobs(Some("[1,"), None, "o.png".to_string()),
        Err(JobsError::InvalidFile(PromptFileError::InvalidJson(_)))
    ));
}

#[test]
fn invalid_json_carries_serde_json_message() {
    let text = "{ not json";
    let expected = serde_json::from_str::<serde_json::Value>(text).unwrap_err().to_string();
    match parse_prompt_file(text) {
        Err(PromptFileError::InvalidJson(m)) => assert_eq!(m, expected),
        _ => panic!("expected invalid JSON"),
    }
    match build_jobs(Some(text), None, "o.png".to_string()) {
        Err(JobsError::InvalidFile(PromptFileError::InvalidJson(m))) => assert_eq!(m, expected),
        _ => panic!("expected invalid JSON"),
    }
}

#[test]
fn prompt_file_text_is_read_as_json() {
    let (d, jobs) = parse_prompt_file(README_FILE).unwrap();
    assert_eq!(d.model.as_deref(), Some("black-forest-labs/flux-schnell"));
    assert_eq!(jobs.len(), 3);
    assert_eq!(jobs[1].width, Some(1920));
    let jobs = build_jobs(Some(README_FILE), None, "x.png".to_string()).unwrap();
    assert_eq!(jobs[0].width, Some(1024));
    assert_eq!(jobs[2].model.as_deref(), Some("stability-ai/sdxl"));
}

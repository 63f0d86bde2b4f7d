use imgen::{
    accepts_output_format, aspect_ratios, build_input, resolve_model, Json, JsonNumber,
    ModelVersion, ResolveError,
};

fn json(text: &str) -> Json {
    fn conv(v: &serde_json::Value) -> Json {
        match v {
            serde_json::Value::Null => Json::Null,
            serde_json::Value::Bool(b) => Json::Bool(*b),
            serde_json::Value::Number(n) => {
                if let Some(u) = n.as_u64() {
                    Json::Number(JsonNumber::PosInt(u))
                } else if let Some(i) = n.as_i64() {
                    Json::Number(JsonNumber::NegInt(i))
                } else {
                    Json::Number(JsonNumber::Float(n.to_string()))
                }
            }
            serde_json::Value::String(s) => Json::Str(s.clone()),
            serde_json::Value::Array(a) => Json::Array(a.iter().map(conv).collect()),
            serde_json::Value::Object(o) => {
                Json::Object(o.iter().map(|(k, v)| (k.clone(), conv(v))).collect())
            }
        }
    }
    conv(&serde_json::from_str(text).unwrap())
}

fn member<'a>(j: &'a Json, key: &str) -> Option<&'a Json> {
    match j {
        Json::Object(es) => es.iter().find(|(k, _)| k == key).map(|(_, v)| v),
        _ => None,
    }
}

fn text_of(j: &Json, key: &str) -> Option<String> {
    match member(j, key) {
        Some(Json::Str(s)) => Some(s.clone()),
        _ => None,
    }
}

fn uint_of(j: &Json, key: &str) -> Option<u64> {
    match member(j, key) {
        Some(Json::Number(JsonNumber::PosInt(n))) => Some(*n),
        _ => None,
    }
}

fn keys(j: &Json) -> Vec<String> {
    match j {
        Json::Object(es) => es.iter().map(|(k, _)| k.clone()).collect(),
        _ => vec![],
    }
}

const DIRECT: &str = r#"{"components":{"schemas":{"Input":{"properties":{
    "aspect_ratio":{"enum":["1:1","16:9",3,"custom"]},
    "output_format":{"type":"string"}}}}}}"#;

const BY_REF: &str = r##"{"components":{"schemas":{
    "Input":{"properties":{"aspect_ratio":{"$ref":"#/components/schemas/aspect_ratio"}}},
    "aspect_ratio":{"enum":["4:3","3:4"]}}}}"##;

const ALL_OF: &str = r##"{"components":{"schemas":{
    "Input":{"properties":{"aspect_ratio":{"allOf":[{"description":"x"},{"$ref":"#/components/schemas/a~1b"}]}}},
    "a/b":{"enum":["21:9"]}}}}"##;

#[test]
fn schema_enum_on_the_property() {
    let s = json(DIRECT);
    assert_eq!(
        aspect_ratios(&s),
        Some(vec!["1:1".to_string(), "16:9".to_string(), "custom".to_string()])
    );
    assert!(accepts_output_format(&s));
}

#[test]
fn schema_enum_through_ref() {
    let s = json(BY_REF);
    assert_eq!(aspect_ratios(&s), Some(vec!["4:3".to_string(), "3:4".to_string()]));
    assert!(!accepts_output_format(&s));
}

#[test]
fn schema_enum_through_all_of_ref_with_escape() {
    let s = json(ALL_OF);
    assert_eq!(aspect_ratios(&s), Some(vec!["21:9".to_string()]));
}

#[test]
fn schema_without_aspect_ratio() {
    let s = json(r#"{"components":{"schemas":{"Input":{"properties":{"width":{}}}}}}"#);
    assert_eq!(aspect_ratios(&s), None);
    let s = json(r#"{"components":{"schemas":{"Input":{"properties":{"aspect_ratio":{"type":"string"}}}}}}"#);
    assert_eq!(aspect_ratios(&s), None);
}

#[test]
fn json_pointer_reads_arrays_and_escapes() {
    let with_ref = |r: &str| {
        json(&format!(
            r#"{{"components":{{"schemas":{{"Input":{{"properties":{{"aspect_ratio":{{"$ref":"{}"}}}}}},"A/B~C":{{"enum":["1:1","4:3"]}},"list":[{{"enum":["2:3"]}},{{"enum":["3:2","9:16"]}}]}}}}}}"#,
            r
        ))
    };
    let v = |xs: &[&str]| Some(xs.iter().map(|x| x.to_string()).collect::<Vec<_>>());
    assert_eq!(aspect_ratios(&with_ref("#/components/schemas/A~1B~0C")), v(&["1:1", "4:3"]));
    assert_eq!(aspect_ratios(&with_ref("#/components/schemas/list/1")), v(&["3:2", "9:16"]));
    assert_eq!(aspect_ratios(&with_ref("#/components/schemas/list/0")), v(&["2:3"]));
    assert_eq!(aspect_ratios(&with_ref("#/components/schemas/list/01")), None);
    assert_eq!(aspect_ratios(&with_ref("#/components/schemas/list/2")), None);
    assert_eq!(aspect_ratios(&with_ref("#components")), None);
    assert_eq!(aspect_ratios(&with_ref("/components/schemas/list/0")), None);
}

#[test]
fn resolve_model_needs_a_version() {
    assert!(matches!(resolve_model(None), Err(ResolveError::NoPublishedVersion)));
    let m = resolve_model(Some(ModelVersion {
        id: "abc123".to_string(),
        openapi_schema: Some(json(DIRECT)),
    }))
    .ok()
    .unwrap();
    assert_eq!(m.version, "abc123");
    assert!(m.output_format);
    assert_eq!(m.aspect_ratios.map(|v| v.len()), Some(3));
    let m = resolve_model(Some(ModelVersion { id: "v".to_string(), openapi_schema: None }))
        .ok()
        .unwrap();
    assert!(!m.output_format);
    assert!(m.aspect_ratios.is_none());
}

#[test]
fn input_with_custom_ratio_sends_pixels() {
    let ratios = Some(vec!["1:1".to_string(), "custom".to_string()]);
    let i = build_input("a cat", 1920, 1080, &ratios, false, &None);
    assert_eq!(keys(&i), vec!["prompt", "aspect_ratio", "width", "height"]);
    assert_eq!(text_of(&i, "prompt").unwrap(), "a cat");
    assert_eq!(text_of(&i, "aspect_ratio").unwrap(), "custom");
    assert_eq!(uint_of(&i, "width"), Some(1920));
    assert_eq!(uint_of(&i, "height"), Some(1080));
}

#[test]
fn input_with_fixed_ratios_sends_the_ratio_only() {
    let ratios = Some(vec!["1:1".to_string(), "16:9".to_string(), "4:3".to_string()]);
    let i = build_input("p", 1024, 768, &ratios, false, &None);
    assert_eq!(keys(&i), vec!["prompt", "aspect_ratio"]);
    assert_eq!(text_of(&i, "aspect_ratio").unwrap(), "4:3");
}

#[test]
fn input_without_aspect_ratio_sends_pixels() {
    let i = build_input("p", 640, 480, &None, false, &None);
    assert_eq!(keys(&i), vec!["prompt", "width", "height"]);
    assert_eq!(uint_of(&i, "width"), Some(640));
    assert_eq!(uint_of(&i, "height"), Some(480));
}

#[test]
fn input_asks_for_png_or_webp_when_the_model_can() {
    let i = build_input("p", 640, 480, &None, true, &None);
    assert_eq!(keys(&i), vec!["prompt", "width", "height", "output_format"]);
    assert_eq!(text_of(&i, "output_format").unwrap(), "png");
    let q = Some(JsonNumber::PosInt(80));
    let i = build_input("p", 640, 480, &None, true, &q);
    assert_eq!(keys(&i), vec!["prompt", "width", "height", "output_format", "output_quality"]);
    assert_eq!(text_of(&i, "output_format").unwrap(), "webp");
    assert_eq!(uint_of(&i, "output_quality"), Some(80));
    let i = build_input("p", 640, 480, &None, false, &q);
    assert_eq!(keys(&i), vec!["prompt", "width", "height"]);
}

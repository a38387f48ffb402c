use indexmap::IndexMap;
use vector::diff::Component;
use vector::pipeline::{ConfigBuilder, Pipeline, PipelineTransform, Pipelines, ShapeKind};

fn transform(inputs: &[&str], outputs: &[&str]) -> PipelineTransform {
    PipelineTransform {
        inner: Component {
            component_type: "remap".to_string(),
            settings: String::new(),
            inputs: inputs.iter().map(|s| s.to_string()).collect(),
        },
        outputs: outputs.iter().map(|s| s.to_string()).collect(),
    }
}

fn config() -> ConfigBuilder {
    ConfigBuilder { inputs: vec!["input".to_string()], outputs: vec!["output".to_string()] }
}

fn sample() -> Pipelines {
    let mut first = Pipeline::new();
    first.transforms.insert("first".to_string(), transform(&["input"], &["output"]));
    first.transforms.insert("second".to_string(), transform(&["first", "nowhere"], &["gone"]));
    let mut map = IndexMap::new();
    map.insert("alpha".to_string(), first);
    let mut other = Pipeline::new();
    assert!(other.insert_transform("solo".to_string(), transform(&["first"], &["output"])).is_none());
    map.insert("beta".to_string(), other);
    Pipelines::from(map)
}

#[test]
fn check_shape_reports_unresolved_references() {
    let pipelines = sample();
    let mut errors = Vec::new();
    pipelines.check_shape(&config(), &mut errors);
    let seen: Vec<(ShapeKind, &str, &str, &str)> = errors
        .iter()
        .map(|e| (e.kind, e.reference.as_str(), e.transform.as_str(), e.pipeline.as_str()))
        .collect();
    assert_eq!(
        seen,
        vec![
            (ShapeKind::Input, "nowhere", "second", "alpha"),
            (ShapeKind::Input, "first", "solo", "beta"),
            (ShapeKind::Output, "gone", "second", "alpha"),
        ]
    );
}

#[test]
fn check_inputs_of_one_pipeline() {
    let mut p = Pipeline::new();
    p.transforms.insert("t".to_string(), transform(&["input", "t", "u"], &[]));
    let mut errors = Vec::new();
    p.check_inputs(&"pid".to_string(), &config(), &mut errors);
    assert_eq!(errors.len(), 1);
    assert_eq!(errors[0].reference, "u");
    let mut errors = Vec::new();
    p.check_outputs(&"pid".to_string(), &config(), &mut errors);
    assert!(errors.is_empty());
}

#[test]
fn transform_keys_and_outputs() {
    let pipelines = sample();
    let keys = pipelines.transform_keys();
    assert_eq!(
        keys,
        vec![
            ("alpha".to_string(), "first".to_string()),
            ("alpha".to_string(), "second".to_string()),
            ("beta".to_string(), "solo".to_string()),
        ]
    );
    assert_eq!(pipelines.outputs(), vec!["output", "gone", "output"]);
}

#[test]
fn pipelines_insert_replaces_in_place() {
    let mut pipelines = Pipelines::new();
    assert!(pipelines.insert("a".to_string(), Pipeline::new()).is_none());
    assert!(pipelines.insert("b".to_string(), Pipeline::new()).is_none());
    let mut p = Pipeline::new();
    p.transforms.insert("x".to_string(), transform(&[], &["o"]));
    assert!(pipelines.insert("a".to_string(), p).is_some());
    assert_eq!(pipelines.transform_keys(), vec![("a".to_string(), "x".to_string())]);
}

#[test]
fn insert_transform_replaces_in_place() {
    let mut p = Pipeline::new();
    assert!(p.insert_transform("a".to_string(), transform(&["x"], &[])).is_none());
    assert!(p.insert_transform("b".to_string(), transform(&["y"], &[])).is_none());
    let old = p.insert_transform("a".to_string(), transform(&["z"], &[]));
    assert_eq!(old.map(|t| t.inner.inputs), Some(vec!["x".to_string()]));
    let keys: Vec<&String> = p.transforms.keys().collect();
    assert_eq!(keys, vec!["a", "b"]);
    assert_eq!(p.transforms["a"].inner.inputs, vec!["z".to_string()]);
}

#[test]
fn output_may_name_a_transform_of_the_same_pipeline() {
    let mut p = Pipeline::new();
    p.insert_transform("a".to_string(), transform(&["input"], &["b"]));
    p.insert_transform("b".to_string(), transform(&["a"], &["output"]));
    let mut errors = Vec::new();
    p.check_outputs(&"pid".to_string(), &config(), &mut errors);
    assert!(errors.is_empty());
    p.insert_transform("c".to_string(), transform(&["a"], &["elsewhere"]));
    let mut errors = Vec::new();
    p.check_outputs(&"pid".to_string(), &config(), &mut errors);
    assert_eq!(errors.len(), 1);
    assert_eq!(errors[0].kind, ShapeKind::Output);
    assert_eq!(errors[0].reference, "elsewhere");
}

#[test]
fn from_loaded_collects_errors_or_pipelines() {
    let mut a = Pipeline::new();
    a.insert_transform("t".to_string(), transform(&[], &[]));
    let loaded = vec![
        Ok(("a".to_string(), a)),
        Err("bad one".to_string()),
        Ok(("b".to_string(), Pipeline::new())),
        Err("bad two".to_string()),
    ];
    match Pipelines::from_loaded(loaded) {
        Err(errors) => assert_eq!(errors, vec!["bad one".to_string(), "bad two".to_string()]),
        Ok(_) => panic!("errors were expected"),
    }
    let mut b = Pipeline::new();
    b.insert_transform("u".to_string(), transform(&[], &[]));
    let loaded = vec![Ok(("a".to_string(), Pipeline::new())), Ok(("b".to_string(), b))];
    let pipelines = Pipelines::from_loaded(loaded).expect("no error");
    assert_eq!(pipelines.transform_keys(), vec![("b".to_string(), "u".to_string())]);
    assert_eq!(pipelines.0.len(), 2);
}

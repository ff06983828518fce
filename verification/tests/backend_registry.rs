use scribble::backend::{model_key_from_path, ModelRegistry};
use scribble::error::Error;

fn paths(v: &[&str]) -> Vec<String> {
    v.iter().map(|s| s.to_string()).collect()
}

#[test]
fn model_keys_are_file_names() {
    assert_eq!(model_key_from_path("./models/ggml-tiny.bin").unwrap(), "ggml-tiny.bin");
    assert_eq!(model_key_from_path("ggml-large-v3.bin").unwrap(), "ggml-large-v3.bin");
    assert!(model_key_from_path("models/").is_err());
    assert!(model_key_from_path("   ").is_err());
}

#[test]
fn registry_refuses_duplicates_and_empty_lists() {
    assert!(ModelRegistry::new(&paths(&[])).is_err());
    assert!(ModelRegistry::new(&paths(&["a/m.bin", "b/m.bin"])).is_err());
    let reg = ModelRegistry::new(&paths(&["a/m1.bin", "b/m2.bin"])).unwrap();
    assert_eq!(reg.keys, vec!["m1.bin".to_string(), "m2.bin".to_string()]);
}

#[test]
fn selection_defaults_to_the_first_model() {
    let reg = ModelRegistry::new(&paths(&["a/m1.bin", "b/m2.bin"])).unwrap();
    assert_eq!(reg.default_model_key(), "m1.bin");
    assert_eq!(reg.selected_index(&None).unwrap(), 0);
    assert_eq!(reg.selected_index(&Some("m2.bin".to_string())).unwrap(), 1);
    let err = reg.selected_index(&Some("missing.bin".to_string())).unwrap_err();
    assert!(matches!(err, Error::Backend { .. }));
}

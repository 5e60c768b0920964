use argus::review::{build_prompt, estimate_tokens};

fn context_json(path: &str, delta: f64, current: f64, files: &[(&str, u64)], exts: &[(&str, f32)]) -> String {
    let files: Vec<String> = files.iter().map(|(n, s)| format!("      [\n        \"{n}\",\n        {s}\n      ]")).collect();
    let exts: Vec<String> = exts.iter().map(|(n, p)| format!("      [\n        \"{n}\",\n        {p:?}\n      ]")).collect();
    format!(
        "  {{\n    \"target_path\": \"{path}\",\n    \"size_delta_mb\": {delta:?},\n    \"current_size_mb\": {current:?},\n    \"top_large_files\": [\n{}\n    ],\n    \"primary_extensions\": [\n{}\n    ]\n  }}",
        files.join(",\n"),
        exts.join(",\n")
    )
}

fn sample_context_json() -> String {
    context_json("/var/log/nginx/", 4190.0, 4200.0, &[("access.log", 4_100_000_000), ("error.log", 90_000_000)], &[(".log", 100.0)])
}

#[test]
fn test_build_prompt_single() {
    let batch = format!("[\n{}\n]", sample_context_json());
    let prompt = build_prompt(&batch, "en-US");
    assert!(prompt.contains("/var/log/nginx/"));
    assert!(prompt.contains("en-US"));
    assert!(prompt.contains("label_detail"));
    assert!(prompt.contains("risk_level"));
    assert!(prompt.contains("\"label\" field (program category"));
}

#[test]
fn test_build_prompt_chinese() {
    let batch = format!("[\n{}\n]", sample_context_json());
    let prompt = build_prompt(&batch, "zh-CN");
    assert!(prompt.contains("zh-CN"));
}

#[test]
fn test_build_prompt_batch() {
    let ctx2 = context_json("~/Library/Caches/pip/", 800.0, 2400.0, &[("wheels/*.whl", 2_000_000_000)], &[(".whl", 80.0), (".gz", 20.0)]);
    let batch = format!("[\n{},\n{}\n]", sample_context_json(), ctx2);
    let prompt = build_prompt(&batch, "en-US");
    assert!(prompt.contains("/var/log/nginx/"));
    assert!(prompt.contains("~/Library/Caches/pip/"));
}

#[test]
fn prompt_is_instructions_then_directories() {
    let prompt = build_prompt("[]", "fr-FR");
    assert!(prompt.starts_with("You are a disk cleanup expert for macOS and Linux.\nRespond in fr-FR. All text fields (label_detail, description, suggestion) must be in fr-FR.\n\n"));
    assert!(prompt.ends_with("Directories to analyze:\n[]"));
    assert!(prompt.contains("{\n  \"<target_path>\": {\n    \"label_detail\""));
    assert_eq!(estimate_tokens(&prompt), (prompt.chars().count() + 2) / 3);
}

use adoc_core::project_config::{
    normalize_assessment_exclusions, validate_project_config, EmbeddingsProvider, ProjectConfigDocumentError,
    RawOutputs, RawProjectConfig,
};

fn raw(docs_path: &str) -> RawProjectConfig {
    RawProjectConfig {
        version: 1,
        mode: "strict".to_string(),
        docs_path: docs_path.to_string(),
        outputs: None,
        embeddings_provider: None,
        mcp_patch_apply: None,
        assessment_exclude_paths: Vec::new(),
    }
}

fn strings(items: &[&str]) -> Vec<String> {
    items.iter().map(|s| s.to_string()).collect()
}

#[test]
fn parses_complete_shipped_configuration() {
    let mut config = raw(".");
    config.outputs = Some(RawOutputs {
        dir: Some("build".to_string()),
        html: Some("site.html".to_string()),
        graph: Some("graph.json".to_string()),
        search: Some("search.json".to_string()),
    });
    config.embeddings_provider = Some("deterministic".to_string());
    config.mcp_patch_apply = Some("enabled".to_string());

    let parsed = validate_project_config(config).expect("valid config");

    assert_eq!(parsed.docs_path, ".");
    assert_eq!(parsed.outputs.dir.as_deref(), Some("build"));
    assert_eq!(parsed.outputs.html.as_deref(), Some("site.html"));
    assert_eq!(parsed.outputs.graph.as_deref(), Some("graph.json"));
    assert_eq!(parsed.outputs.search.as_deref(), Some("search.json"));
    assert_eq!(parsed.embeddings_provider, EmbeddingsProvider::Deterministic);
    assert!(parsed.mcp_patch_apply_enabled);
}

#[test]
fn normalizes_assessment_exclusions_and_removes_shadowed_children() {
    let mut config = raw("docs");
    config.assessment_exclude_paths = strings(&["vendor/pkg/", "generated.txt", "vendor/", "generated.txt"]);

    let parsed = validate_project_config(config).expect("assessment config parses");

    assert_eq!(parsed.assessment_exclude_paths, ["generated.txt", "vendor/"]);
}

#[test]
fn rejects_unsafe_assessment_exclusions() {
    for path in ["", ".", "../src", "/tmp", "C:/tmp", "bad\\path", " src"] {
        let mut config = raw("docs");
        config.assessment_exclude_paths = vec![path.to_string()];
        let error = match validate_project_config(config) {
            Err(error) => error,
            Ok(_) => panic!("unsafe path must fail"),
        };
        assert!(error.to_display_string().contains("assessment.exclude_paths"));
        assert!(matches!(
            error,
            ProjectConfigDocumentError::InvalidAssessmentPath { entry } if entry == path
        ));
    }
}

#[test]
fn config_defaults_apply_when_sections_are_absent() {
    let parsed = validate_project_config(raw("docs/guides")).expect("minimal config");
    assert_eq!(parsed.embeddings_provider, EmbeddingsProvider::Local);
    assert!(!parsed.mcp_patch_apply_enabled);
    assert!(parsed.outputs.dir.is_none() && parsed.outputs.search.is_none());
    assert!(parsed.assessment_exclude_paths.is_empty());
}

#[test]
fn config_rejections_name_the_offending_value() {
    let mut config = raw("docs");
    config.version = 2;
    match validate_project_config(config) {
        Err(ProjectConfigDocumentError::Invalid(message)) => {
            assert_eq!(message, "unsupported version 2; expected 1")
        }
        _ => panic!("version 2 must fail"),
    }

    let mut config = raw("docs");
    config.mode = "loose \"x\"".to_string();
    match validate_project_config(config) {
        Err(ProjectConfigDocumentError::Invalid(message)) => {
            assert_eq!(message, "unsupported mode \"loose \\\"x\\\"\"; expected \"strict\"")
        }
        _ => panic!("mode must fail"),
    }

    let mut config = raw("docs");
    config.embeddings_provider = Some("remote".to_string());
    match validate_project_config(config) {
        Err(ProjectConfigDocumentError::Invalid(message)) => assert_eq!(
            message,
            "unsupported embeddings provider \"remote\"; expected \"local\", \"deterministic\", or \"none\""
        ),
        _ => panic!("provider must fail"),
    }

    let mut config = raw("docs");
    config.mcp_patch_apply = Some("on".to_string());
    match validate_project_config(config) {
        Err(ProjectConfigDocumentError::Invalid(message)) => {
            assert_eq!(message, "unsupported mcp.patch_apply \"on\"; expected \"enabled\" or \"disabled\"")
        }
        _ => panic!("patch_apply must fail"),
    }

    let error = match validate_project_config(raw("../outside")) {
        Err(error) => error,
        Ok(_) => panic!("docs path must fail"),
    };
    assert_eq!(error.to_display_string(), "docs_path must be a portable project-relative path");
}

#[test]
fn docs_path_accepts_the_project_root_spelled_by_components() {
    assert!(validate_project_config(raw("./")).is_ok());
    assert!(validate_project_config(raw("./.")).is_ok());
    assert!(validate_project_config(raw("..")).is_err());
    assert!(validate_project_config(raw("/docs")).is_err());
}

#[test]
fn exclusion_error_message_quotes_the_entry() {
    let error = normalize_assessment_exclusions(strings(&["ok.txt", "/abs"])).err().expect("absolute path fails");
    assert_eq!(
        error.to_display_string(),
        "assessment.exclude_paths entry \"/abs\" must be an exact portable project-relative file or a directory prefix ending in `/`"
    );
    assert_eq!(
        normalize_assessment_exclusions(strings(&["b/", "a/x", "b/y/z", "a/"])).ok(),
        Some(strings(&["a/", "b/"]))
    );
}

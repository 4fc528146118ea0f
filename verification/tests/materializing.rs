//! Destination paths, the never-overwrite rule and the report.

use dropkick::interpolation_config::{ConfigBuilder, GitIdentity, InterpolationConfig};
use dropkick::materialize::{
    clean_path, count_imported, destination_of, get_templates_path, import_step, ImportOutcome,
};

fn context() -> InterpolationConfig {
    ConfigBuilder::new("demo".to_string(), String::new())
        .build(GitIdentity {
            author: "jane".to_string(),
            email: String::new(),
            repo_domain: String::new(),
            registry_domain: String::new(),
            k8s_domain: String::new(),
        })
        .unwrap()
}

const ROOT: &str = "/home/me/.dropkick/templates";

#[test]
fn destination_drops_folder_and_marker() {
    assert_eq!(
        destination_of("/home/me/.dropkick/templates/web/src/main.rs.tt", ROOT),
        Some("src/main.rs".to_string())
    );
    // only the marker suffix is stripped, not a real extension
    assert_eq!(
        destination_of("/home/me/.dropkick/templates/web/README.md", ROOT),
        Some("README.md".to_string())
    );
}

#[test]
fn destination_requires_root_and_folder() {
    // outside the template root
    assert_eq!(destination_of("/elsewhere/web/a.tt", ROOT), None);
    // directly in the root, no template-folder segment to drop
    assert_eq!(
        destination_of("/home/me/.dropkick/templates/a.tt", ROOT),
        None
    );
}

#[test]
fn existing_destination_is_never_overwritten() {
    let cfg = context();
    // whatever the content, a pre-existing destination is skipped
    let r = import_step(true, "{{name}}", &cfg);
    assert!(matches!(r, ImportOutcome::Skipped));
    let r = import_step(true, "{{unknown_field}}", &cfg);
    assert!(matches!(r, ImportOutcome::Skipped));
}

#[test]
fn fresh_destination_renders_content() {
    let cfg = context();
    match import_step(false, "name={{name}}", &cfg) {
        ImportOutcome::Rendered(s) => assert_eq!(s, "name=demo"),
        _ => panic!("expected rendered content"),
    }
    match import_step(false, "{{unknown_field}}", &cfg) {
        ImportOutcome::Failed(m) => assert_eq!(m, "unknown_field"),
        _ => panic!("expected a failure naming the field"),
    }
}

#[test]
fn report_counts_imported_files() {
    let cfg = context();
    let outcomes = vec![
        import_step(false, "a", &cfg),
        import_step(true, "b", &cfg),
        import_step(false, "{{nope}}", &cfg),
        import_step(false, "d", &cfg),
    ];
    assert_eq!(count_imported(&outcomes), 2);
    assert_eq!(outcomes.len(), 4);
}

#[test]
fn templates_path_under_home() {
    assert_eq!(
        get_templates_path("/home/me"),
        "/home/me/.dropkick/templates"
    );
}

#[test]
fn clean_path_shortens_home() {
    assert_eq!(clean_path("/home/me/x/y", "/home/me"), "~/x/y");
    assert_eq!(clean_path("/home/me", "/home/me"), "~");
    assert_eq!(clean_path("/opt/z", "/home/me"), "/opt/z");
}

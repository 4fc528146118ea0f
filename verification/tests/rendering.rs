//! The template renderer: dialect rewrite and substitution.

use dropkick::interpolation_config::{ConfigBuilder, GitIdentity};
use dropkick::interpolation_config::InterpolationConfig;
use dropkick::template_rendering::render_template;

fn context() -> InterpolationConfig {
    ConfigBuilder::new("my-cool_app".to_string(), "my-".to_string())
        .template("base".to_string())
        .test(true)
        .ext("rs".to_string())
        .bin(false)
        .build(GitIdentity {
            author: "Jane".to_string(),
            email: "jane@example.com".to_string(),
            repo_domain: String::new(),
            registry_domain: String::new(),
            k8s_domain: String::new(),
        })
        .unwrap()
}

#[test]
fn substitutes_native_placeholders() {
    let cfg = context();
    assert_eq!(
        render_template("Hello {{name}}!", &cfg).unwrap(),
        "Hello my-cool_app!"
    );
    assert_eq!(
        render_template("{{pascal_name}}/{{underscored_name}}", &cfg).unwrap(),
        "MyCoolApp/my_cool_app"
    );
}

#[test]
fn substitutes_foreign_dialect() {
    let cfg = context();
    assert_eq!(
        render_template("v: <%= config[:camel_name] %>", &cfg).unwrap(),
        "v: myCoolApp"
    );
    // whitespace inside the dialect is optional and free
    assert_eq!(
        render_template("<%=config[:name]%>", &cfg).unwrap(),
        "my-cool_app"
    );
    assert_eq!(
        render_template("<%=  config[  :title  ]   %>", &cfg).unwrap(),
        "My Cool App"
    );
}

#[test]
fn renders_boolean_and_flag_fields() {
    let cfg = context();
    assert_eq!(
        render_template("{{test}}/{{bin}}/{{ext}}/{{template}}", &cfg).unwrap(),
        "true/false/rs/base"
    );
}

#[test]
fn renders_git_derived_fields() {
    let cfg = context();
    assert_eq!(
        render_template("{{git_repo_url}}", &cfg).unwrap(),
        "https://github.com/Jane/my-cool_app"
    );
    assert_eq!(
        render_template("{{image_path}}", &cfg).unwrap(),
        "jane/my-cool_app"
    );
    assert_eq!(
        render_template("k8s stuff: <%= config[:k8s_domain] %>", &cfg).unwrap(),
        "k8s stuff: k8s.domain.missing.from.gitconfig.local"
    );
}

#[test]
fn fails_naming_the_unknown_field() {
    let cfg = context();
    let err = render_template("ok {{nope}} rest", &cfg).unwrap_err();
    assert_eq!(err, "nope");
    // the first unknown field wins
    let err = render_template("{{name}} {{first}} {{second}}", &cfg).unwrap_err();
    assert_eq!(err, "first");
}

#[test]
fn incomplete_placeholders_pass_through() {
    let cfg = context();
    assert_eq!(render_template("{{name", &cfg).unwrap(), "{{name");
    assert_eq!(render_template("{{}}", &cfg).unwrap(), "{{}}");
    assert_eq!(render_template("{name}", &cfg).unwrap(), "{name}");
    assert_eq!(render_template("<%= config[:] %>", &cfg).unwrap(), "<%= config[:] %>");
}

#[test]
fn empty_template_renders_empty() {
    let cfg = context();
    assert_eq!(render_template("", &cfg).unwrap(), "");
}

#[test]
fn plain_text_is_unchanged() {
    let cfg = context();
    assert_eq!(
        render_template("no placeholders here\nat all", &cfg).unwrap(),
        "no placeholders here\nat all"
    );
}

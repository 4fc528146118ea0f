//! The config builder against concrete git identities.

use dropkick::config::Config;
use dropkick::interpolation_config::{ConfigBuilder, GitIdentity};

fn git(author: &str, email: &str, repo: &str, registry: &str, k8s: &str) -> GitIdentity {
    GitIdentity {
        author: author.to_string(),
        email: email.to_string(),
        repo_domain: repo.to_string(),
        registry_domain: registry.to_string(),
        k8s_domain: k8s.to_string(),
    }
}

#[test]
fn build_derives_every_field() {
    let cfg = ConfigBuilder::new("My-App".to_string(), "My-".to_string())
        .template("base".to_string())
        .test(true)
        .ext("rs".to_string())
        .bin(false)
        .build(git(
            "MyName",
            "me@example.com",
            "gitlab.com",
            "registry.example.com",
            "k8s.example.com",
        ))
        .unwrap();
    assert_eq!(cfg.name, "My-App");
    assert_eq!(cfg.title, "My App");
    assert_eq!(cfg.unprefixed_name, "App");
    assert_eq!(cfg.unprefixed_pascal, "App");
    assert_eq!(cfg.underscored_name, "My_App");
    assert_eq!(cfg.pascal_name, "MyApp");
    assert_eq!(cfg.camel_name, "myApp");
    assert_eq!(cfg.screamcase_name, "MY_APP");
    assert_eq!(cfg.namespaced_path, "My/App");
    assert_eq!(cfg.makefile_path, "My_App/My_App");
    assert_eq!(cfg.constant_name, "My::App");
    assert_eq!(cfg.constant_array, vec!["My", "App"]);
    assert_eq!(cfg.author, "MyName");
    assert_eq!(cfg.email, "me@example.com");
    assert_eq!(cfg.git_repo_domain, "gitlab.com");
    assert_eq!(cfg.git_repo_url, "https://gitlab.com/MyName/My-App");
    assert_eq!(cfg.git_repo_path, "gitlab.com/myname/my-app");
    assert_eq!(cfg.image_path, "myname/my-app");
    assert_eq!(cfg.registry_domain, "registry.example.com");
    assert_eq!(cfg.registry_repo_path, "registry.example.com/myname/my-app");
    assert_eq!(cfg.k8s_domain, "k8s.example.com");
    assert_eq!(cfg.template, "base");
    assert!(cfg.test);
    assert_eq!(cfg.ext, "rs");
    assert!(!cfg.bin);
}

#[test]
fn build_defaults_for_unset_keys() {
    let cfg = ConfigBuilder::new("app".to_string(), String::new())
        .build(git("someone", "", "", "", ""))
        .unwrap();
    assert_eq!(cfg.git_repo_domain, "github.com");
    assert_eq!(cfg.email, "TODO: Write your email address");
    assert_eq!(cfg.k8s_domain, "k8s.domain.missing.from.gitconfig.local");
    assert_eq!(cfg.git_repo_url, "https://github.com/someone/app");
    assert_eq!(cfg.git_repo_path, "github.com/someone/app");
    assert_eq!(cfg.registry_repo_path, "/someone/app");
}

#[test]
fn build_fails_without_user_name() {
    // a missing mandatory user.name aborts with an actionable message
    let r = ConfigBuilder::new("app".to_string(), String::new()).build(git("", "x", "", "", ""));
    let msg = r.unwrap_err();
    assert!(msg.contains("git config user.name"));
    assert!(msg.contains("git config --global user.name YOUR_GH_NAME"));
}

#[test]
fn builder_methods_set_flags() {
    let cfg = ConfigBuilder::new("a".to_string(), String::new())
        .bin(true)
        .build(git("n", "", "", "", ""))
        .unwrap();
    assert!(cfg.bin);
    assert!(!cfg.test);
    assert_eq!(cfg.ext, "");
    assert_eq!(cfg.template, "");
}

#[test]
fn repo_config_default() {
    let c = Config::new("Repo Name");
    assert_eq!(c.project.name, "Repo Name");
    assert_eq!(c.project.template, "");
}

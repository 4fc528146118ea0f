//! The identifier deriver on concrete names.

use dropkick::capitalize;
use dropkick::naming::{
    camel_case, constant_array, constant_name, makefile_path, namespaced_path, pascal_case,
    scream_case, title_case, underscored_name, unprefixed_name, unprefixed_pascal,
};

#[test]
fn capitalize_simple() {
    assert_eq!(capitalize("hello"), "Hello");
    assert_eq!(capitalize("Hello"), "Hello");
    assert_eq!(capitalize("x"), "X");
}

#[test]
fn capitalize_empty() {
    assert_eq!(capitalize(""), "");
}

#[test]
fn capitalize_non_letter_head() {
    assert_eq!(capitalize("9lives"), "9lives");
    assert_eq!(capitalize("_x"), "_x");
}

#[test]
fn title_mixed_separators() {
    assert_eq!(title_case("my-cool_app"), "My Cool App");
    assert_eq!(title_case("foo-bar-baz"), "Foo Bar Baz");
}

#[test]
fn pascal_mixed_separators() {
    assert_eq!(pascal_case("my-cool_app"), "MyCoolApp");
    assert_eq!(pascal_case("foo-bar"), "FooBar");
}

#[test]
fn unprefixed_strips_only_leading_prefix() {
    assert_eq!(unprefixed_name("my-cool_app", "my-"), "cool_app");
    assert_eq!(unprefixed_name("my-cool_app", "your-"), "my-cool_app");
    assert_eq!(unprefixed_name("my-cool_app", ""), "my-cool_app");
}

#[test]
fn unprefixed_pascal_matches_pascal_of_unprefixed() {
    // the same pair the deriver's law speaks of, on concrete values
    let name = "my-cool_app";
    let prefix = "my-";
    assert_eq!(
        unprefixed_pascal(name, prefix),
        pascal_case(&unprefixed_name(name, prefix))
    );
    assert_eq!(unprefixed_pascal(name, prefix), "CoolApp");
}

#[test]
fn scream_case_upper_cases_underscored() {
    assert_eq!(scream_case("my-cool_app"), "MY_COOL_APP");
    assert_eq!(scream_case("abc"), "ABC");
}

#[test]
fn underscored_and_namespaced() {
    assert_eq!(underscored_name("my-cool_app"), "my_cool_app");
    assert_eq!(namespaced_path("my-cool-app"), "my/cool/app");
}

#[test]
fn makefile_path_doubles_underscored() {
    assert_eq!(makefile_path("my-app"), "my_app/my_app");
}

#[test]
fn camel_lowers_first_letter() {
    assert_eq!(camel_case("my-cool_app"), "myCoolApp");
    assert_eq!(camel_case(""), "");
}

#[test]
fn constant_name_single_pass() {
    // underscores split, empties dropped, tokens capitalized
    assert_eq!(constant_name("foo_bar"), "FooBar");
    assert_eq!(constant_name("foo__bar"), "FooBar");
}

#[test]
fn constant_name_two_pass_namespaces() {
    // a dash that survives the first pass re-splits with `::`
    assert_eq!(constant_name("foo-bar_baz"), "Foo::BarBaz");
    assert_eq!(constant_name("a-b-c"), "A::B::C");
}

#[test]
fn constant_array_splits_constant_name() {
    assert_eq!(constant_array("foo-bar_baz"), vec!["Foo", "BarBaz"]);
    assert_eq!(constant_array("foo_bar"), vec!["FooBar"]);
}

#[test]
fn constant_array_joins_back_to_constant_name() {
    // the join law, on concrete values
    for name in ["my-cool_app", "foo_bar", "a-b-c", "", "x"] {
        assert_eq!(constant_array(name).join("::"), constant_name(name));
    }
}

#[test]
fn empty_name_derivations() {
    assert_eq!(title_case(""), "");
    assert_eq!(pascal_case(""), "");
    assert_eq!(constant_name(""), "");
    assert_eq!(scream_case(""), "");
}

#[test]
fn leading_separator_yields_empty_token() {
    // a separator at the edge makes an empty token, as str::split does
    assert_eq!(title_case("-foo"), " Foo");
    assert_eq!(pascal_case("-foo"), "Foo");
    // the constant name drops empty tokens instead
    assert_eq!(constant_name("_foo"), "Foo");
}

#[test]
fn spec_example_derivations() {
    // the documented example pair in full
    let name = "my-cool_app";
    assert_eq!(unprefixed_name(name, "my-"), "cool_app");
    assert_eq!(pascal_case(name), "MyCoolApp");
    assert_eq!(title_case(name), "My Cool App");
    assert_eq!(scream_case(name), "MY_COOL_APP");
}

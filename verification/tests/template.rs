use release_engine::template::{render, SingleRelease, TemplateContext, TemplateError};

fn many() -> TemplateContext {
    TemplateContext {
        count: 2,
        releases: "* one\n* two\n".to_string(),
        breaking_changes: "BREAKING".to_string(),
        changelogs: "LOGS".to_string(),
        single: None,
    }
}

fn one() -> TemplateContext {
    TemplateContext {
        count: 1,
        releases: "* only\n".to_string(),
        breaking_changes: String::new(),
        changelogs: "LOG".to_string(),
        single: Some(SingleRelease {
            package: "only".to_string(),
            version: "0.1.0".to_string(),
            previous_version: "0.0.9".to_string(),
            changelog: "### Other".to_string(),
            compatibility: "compatible".to_string(),
        }),
    }
}

#[test]
fn text_without_placeholders_stays() {
    assert_eq!(render("add labels to release label update", &many()).unwrap(), "add labels to release label update");
    assert_eq!(render("", &many()).unwrap(), "");
    assert_eq!(render("a { b } c }} d {", &many()).unwrap(), "a { b } c }} d {");
}

#[test]
fn variables_of_all_releases_are_always_there() {
    assert_eq!(
        render("{{count}} releases:\n{{ releases }}{{breaking_changes}}|{{  changelogs\t}}", &many())
            .unwrap(),
        "2 releases:\n* one\n* two\nBREAKING|LOGS"
    );
}

#[test]
fn variables_of_a_single_release() {
    assert_eq!(
        render(
            "release: {{ package }} {{ version }} (was {{ previous_version }}, {{compatibility}})\n{{changelog}}",
            &one()
        )
        .unwrap(),
        "release: only 0.1.0 (was 0.0.9, compatible)\n### Other"
    );
}

#[test]
fn a_variable_of_a_single_release_is_not_available_among_several() {
    let error = render("release: {{ package }} {{ version }}", &many()).unwrap_err();
    assert!(matches!(error, TemplateError::UnavailableVariable { name } if name == "package"));
    let error = render("release: {{ count }} {{ version }}", &many()).unwrap_err();
    assert!(matches!(error, TemplateError::UnavailableVariable { name } if name == "version"));
}

#[test]
fn an_unknown_variable_is_an_error() {
    let error = render("{{ nothing }}", &one()).unwrap_err();
    assert!(matches!(error, TemplateError::UnknownVariable { name } if name == "nothing"));
    let error = render("{{}}", &one()).unwrap_err();
    assert!(matches!(error, TemplateError::UnknownVariable { name } if name.is_empty()));
}

#[test]
fn a_placeholder_must_be_closed() {
    assert!(matches!(render("a {{ count", &one()), Err(TemplateError::Unclosed)));
    assert!(matches!(render("a {{ count }", &one()), Err(TemplateError::Unclosed)));
    assert!(matches!(render("{{", &one()), Err(TemplateError::Unclosed)));
}

#[test]
fn the_first_fault_from_the_left_is_reported() {
    let error = render("{{ nothing }} {{ package", &many()).unwrap_err();
    assert!(matches!(error, TemplateError::UnknownVariable { .. }));
    let error = render("{{ package }} {{ nothing }}", &many()).unwrap_err();
    assert!(matches!(error, TemplateError::UnavailableVariable { .. }));
}

#[test]
fn values_are_not_rendered_again() {
    let mut context = one();
    context.releases = "{{ count }}".to_string();
    assert_eq!(render("{{ releases }}", &context).unwrap(), "{{ count }}");
}

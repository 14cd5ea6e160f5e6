use bounds::model::LicenseTemplate;

fn license(body: &str) -> LicenseTemplate {
    LicenseTemplate {
        name: "Test license".to_owned(),
        spdx_id: "Test".to_owned(),
        description: "A license used by tests".to_owned(),
        body: body.to_owned(),
    }
}

#[test]
fn detects_supported_author_placeholders() {
    assert!(license("Copyright [fullname]").needs_author());
    assert!(license("Copyright [name of copyright owner]").needs_author());
    assert!(!license("No copyright placeholder").needs_author());
}

#[test]
fn placeholder_must_be_complete() {
    assert!(!license("Copyright [fullnam]").needs_author());
    assert!(!license("").needs_author());
    assert!(license("[fullname]").needs_author());
}

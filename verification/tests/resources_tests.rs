use privaxy::blocker_utils::build_resource_from_file_contents;
use privaxy::blocker_utils::mime_from_path_extension;
use privaxy::blocker_utils::read_redirectable_resource_mapping;
use privaxy::blocker_utils::read_template_resources;
use privaxy::blocker_utils::Resource;
use privaxy::blocker_utils::ResourceAliasField;
use privaxy::blocker_utils::ResourceKind;
use privaxy::blocker_utils::ResourceProperties;

const SCRIPTLETS: &str = "/*\nlicense header\n*/\n\n/// test-scriptlet.js\n/// alias ts.js\nwindow.x=1;\n\n/// templated.js\nwindow.y={{1}};\n\n";

#[test]
fn scriptlets_manifest_is_read() {
    let resources = read_template_resources(SCRIPTLETS).unwrap();
    assert_eq!(resources.len(), 2);

    let first: &Resource = &resources[0];
    assert_eq!(first.name, "test-scriptlet.js");
    assert_eq!(first.aliases, vec!["ts.js".to_string()]);
    // base64 of "window.x=1;\n"
    assert_eq!(first.content, "d2luZG93Lng9MTsK");
    match &first.kind {
        ResourceKind::Mime(m) => assert_eq!(m, "application/javascript"),
        ResourceKind::Template => panic!("no template marker in the first scriptlet"),
    }

    let second: &Resource = &resources[1];
    assert_eq!(second.name, "templated.js");
    assert!(second.aliases.is_empty());
    match &second.kind {
        ResourceKind::Template => {}
        ResourceKind::Mime(_) => panic!("a body with a placeholder is a template"),
    }
}

#[test]
fn scriptlet_without_trailing_blank_line_is_dropped() {
    // the reader finishes a scriptlet only on a blank line, as the
    // original manifest format does
    let text = "/// lost.js\nwindow.z=1;";
    let resources = read_template_resources(text).unwrap();
    assert!(resources.is_empty());
}

#[test]
fn malformed_detail_line_is_an_error() {
    let text = "/// broken.js\n/// alias\n\n";
    assert!(read_template_resources(text).is_none());
}

#[test]
fn comment_lines_are_skipped() {
    let text = "# hash comment\n// line comment\n//\n/// kept.js\nbody();\n\n";
    let resources = read_template_resources(text).unwrap();
    assert_eq!(resources.len(), 1);
    assert_eq!(resources[0].name, "kept.js");
}

const MAPPING: &str = "// preamble that is ignored\nexport default new Map([\n  ['1x1.gif', {\n    alias: '1x1-transparent.gif', // alias comment\n    data: 'blob',\n  }],\n  ['noop.js', {\n    alias: ['noopjs', 'abp-resource:blank-js'],\n  }],\n  ['templated.js', {\n    params: ['a'],\n  }],\n  ['plain.css', { }],\n]);\n";

#[test]
fn redirect_resource_mapping_is_read() {
    let props = read_redirectable_resource_mapping(MAPPING).unwrap();
    // the templated entry carries params and is dropped
    assert_eq!(props.len(), 3);

    assert_eq!(props[0].name, "1x1.gif");
    assert_eq!(props[0].alias, vec!["1x1-transparent.gif".to_string()]);
    assert_eq!(props[0].data.as_deref(), Some("blob"));

    assert_eq!(props[1].name, "noop.js");
    assert_eq!(
        props[1].alias,
        vec!["noopjs".to_string(), "abp-resource:blank-js".to_string()]
    );
    assert!(props[1].data.is_none());

    assert_eq!(props[2].name, "plain.css");
    assert!(props[2].alias.is_empty());
    assert!(props[2].data.is_none());
}

#[test]
fn mapping_without_the_declaration_is_an_error() {
    assert!(read_redirectable_resource_mapping("nothing here").is_none());
    assert!(read_redirectable_resource_mapping("").is_none());
}

#[test]
fn mapping_with_broken_syntax_is_an_error() {
    let text = "export default new Map([\n  ['unterminated\n]);\n";
    assert!(read_redirectable_resource_mapping(text).is_none());
}

#[test]
fn empty_mapping_is_fine() {
    let text = "export default new Map([\n]);\n";
    let props = read_redirectable_resource_mapping(text).unwrap();
    assert!(props.is_empty());
}

#[test]
fn scriptlet_with_empty_body_is_kept_with_empty_content() {
    let text = "/// empty.js\n\n";
    let resources = read_template_resources(text).unwrap();
    assert_eq!(resources.len(), 1);
    assert_eq!(resources[0].name, "empty.js");
    assert_eq!(resources[0].content, "");
}

#[test]
fn unknown_mapping_keys_are_ignored() {
    let text = "export default new Map([\n  ['x.js', {\n    custom_1: 'y',\n    alias: 'x-alias.js',\n  }],\n]);\n";
    let props = read_redirectable_resource_mapping(text).unwrap();
    assert_eq!(props.len(), 1);
    assert_eq!(props[0].name, "x.js");
    assert_eq!(props[0].alias, vec!["x-alias.js".to_string()]);
    assert!(props[0].data.is_none());
}

#[test]
fn mime_table_matches_extensions() {
    assert_eq!(mime_from_path_extension("noop.js"), "application/javascript");
    assert_eq!(mime_from_path_extension("a.css"), "text/css");
    assert_eq!(mime_from_path_extension("p.png"), "image/png");
    assert_eq!(mime_from_path_extension("t.txt"), "text/plain");
    assert_eq!(mime_from_path_extension("index.html"), "text/html");
    assert_eq!(mime_from_path_extension("noext"), "application/octet-stream");
    assert_eq!(mime_from_path_extension("weird.xyz"), "application/octet-stream");
    assert_eq!(mime_from_path_extension("two.dots.js"), "application/javascript");
}

#[test]
fn text_resources_lose_carriage_returns() {
    let info = ResourceProperties {
        name: "script.js".to_string(),
        alias: vec!["s.js".to_string()],
        data: None,
    };
    let contents = b"a\r\nb".to_vec();
    let resource = build_resource_from_file_contents(&contents, &info).unwrap();
    // base64 of "a\nb"
    assert_eq!(resource.content, "YQpi");
    assert_eq!(resource.name, "script.js");
    assert_eq!(resource.aliases, vec!["s.js".to_string()]);
    match &resource.kind {
        ResourceKind::Mime(m) => assert_eq!(m, "application/javascript"),
        ResourceKind::Template => panic!("file resources are never templates"),
    }
}

#[test]
fn binary_resources_are_encoded_as_is() {
    let info = ResourceProperties {
        name: "pixel.gif".to_string(),
        alias: Vec::new(),
        data: None,
    };
    let contents = vec![0x47, 0x49, 0x46, 0x0d, 0x00];
    let resource = build_resource_from_file_contents(&contents, &info).unwrap();
    // the 0x0d byte stays: only text resources lose carriage returns
    assert_eq!(resource.content, "R0lGDQA=");
}

#[test]
fn invalid_utf8_in_a_text_resource_is_an_error() {
    let info = ResourceProperties {
        name: "broken.js".to_string(),
        alias: Vec::new(),
        data: None,
    };
    let contents = vec![0xff, 0xfe, 0x00];
    assert!(build_resource_from_file_contents(&contents, &info).is_none());
}

#[test]
fn alias_field_becomes_a_list() {
    let single = ResourceAliasField::SingleString("one".to_string());
    assert_eq!(single.into_vec(), vec!["one".to_string()]);
    let listed = ResourceAliasField::ListOfStrings(vec!["a".to_string(), "b".to_string()]);
    assert_eq!(listed.into_vec(), vec!["a".to_string(), "b".to_string()]);
}

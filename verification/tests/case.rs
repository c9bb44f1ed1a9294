use cradle_idl::case::{camel, pascal, scream, snake, split};

fn assert_split(ident: &str, parts: &[&str]) {
    assert_eq!(split(ident), parts);
}

#[test]
fn test_snake_case() {
    assert_split("snake_case", &["snake", "case"]);
    assert_split("snake__case", &["snake", "case"]);
    assert_split("_snake_case_", &["snake", "case"]);
}

#[test]
fn test_kebab_case() {
    assert_split("kebab-case", &["kebab", "case"]);
    assert_split("kebab--case", &["kebab", "case"]);
    assert_split("-kebab-case-", &["kebab", "case"]);
}

#[test]
fn test_camel_case() {
    assert_split("thisCase", &["this", "Case"]);
    assert_split("simpleTestCase", &["simple", "Test", "Case"]);
}

#[test]
fn test_pascal_case() {
    assert_split("PascalCase", &["Pascal", "Case"]);
    assert_split("HttpServer", &["Http", "Server"]);
}

#[test]
fn test_acronyms() {
    assert_split("HTTPServer", &["HTTP", "Server"]);
    assert_split("XMLHttpRequest", &["XML", "Http", "Request"]);
    assert_split("mixedCASETest", &["mixed", "CASE", "Test"]);
}

#[test]
fn test_digits_basic() {
    assert_split("Version2", &["Version2"]);
    assert_split("Version23", &["Version23"]);
    assert_split("Version2Foo", &["Version2Foo"]);
    assert_split("Version23Foo", &["Version23Foo"]);
    assert_split("v23foo", &["v23foo"]);
}

#[test]
fn test_digits_prefix() {
    assert_split("Point2D", &["Point2D"]);
    assert_split("Vector3DContour", &["Vector3D", "Contour"]);
    assert_split("vector3d_contour", &["vector3d", "contour"]);
    assert_split("prefix2d", &["prefix2d"]);
    assert_split("prefix2DSuffix", &["prefix2D", "Suffix"]);
    assert_split("Point2Door", &["Point2Door"]);
    assert_split("Point2dDoor", &["Point2d", "Door"]);
    assert_split("Point2door", &["Point2door"]);
    assert_split("mat2ULL", &["mat2ULL"]);
    assert_split("mat2d_ULL", &["mat2d", "ULL"]);
    assert_split("prefix2Ull", &["prefix2Ull"]);
}

#[test]
fn test_digits_embedded() {
    assert_split("Version2GetNext", &["Version2Get", "Next"]);
    assert_split("prefix2ULLSuffix", &["prefix2ULL", "Suffix"]);
}

#[test]
fn test_v_style_tokens() {
    assert_split("TokenV2Next", &["Token", "V2Next"]);
    assert_split("GL11Version", &["GL11Version"]);
}

#[test]
fn test_digit_letter_edges() {
    assert_split("Fast2Furious", &["Fast2Furious"]);
    assert_split("Fast2fast", &["Fast2fast"]);
}

#[test]
fn test_all_caps() {
    assert_split("HTTP", &["HTTP"]);
    assert_split("ABC123", &["ABC123"]);
}

#[test]
fn weird_cases() {
    assert_split("", &[]);
    assert_split("___", &[]);
    assert_split("_-_", &[]);
    assert_split("--", &[]);
    assert_split("a", &["a"]);
    assert_split("A", &["A"]);
    assert_split("aB", &["a", "B"]);
}

#[test]
fn test_pascal_case_digits() {
    assert_eq!(pascal("2def"), "2Def");
    assert_eq!(pascal("foo_2def"), "Foo2Def");
    assert_eq!(pascal("foo2d_ef"), "Foo2dEf");
    assert_eq!(pascal("FOO_BAR"), "FooBar");
}

#[test]
fn test_camel_case_digits() {
    assert_eq!(camel("foo_2def"), "foo2Def");
    assert_eq!(camel("foo2d_ef"), "foo2dEf");
    assert_eq!(camel("2def_ghi"), "2defGhi");
    assert_eq!(camel("FOO_BAR"), "fooBar");
}

#[test]
fn test_digits_do_not_create_boundaries() {
    let original = "Point2D";
    let once = pascal(original);

    assert_eq!(split(original), vec!["Point2D"]);
    assert_eq!(once, "Point2d");
    assert_eq!(split(&once), vec!["Point2d"]);
    assert_eq!(pascal(original), pascal(&once));
    assert_eq!(camel(original), camel(&once));
    assert_eq!(snake(original), snake(&once));
    assert_eq!(scream(original), scream(&once));
}

#[test]
fn acronym_pascal_output_changes_on_second_pass() {
    let original = "uI_oi8";
    let once = pascal(original);

    assert_eq!(split(original), vec!["u", "I", "oi8"]);
    assert_eq!(once, "UIOi8");
    assert_eq!(split(&once), vec!["UI", "Oi8"]);
    assert_ne!(pascal(original), pascal(&once));
}

#[test]
fn case_conversions_of_mixed_identifier() {
    assert_eq!(snake("XMLHttpRequest"), "xml_http_request");
    assert_eq!(scream("XMLHttpRequest"), "XML_HTTP_REQUEST");
    assert_eq!(pascal("XMLHttpRequest"), "XmlHttpRequest");
    assert_eq!(camel("XMLHttpRequest"), "xmlHttpRequest");
    assert_eq!(snake(""), "");
    assert_eq!(pascal("__"), "");
}

#[test]
fn snake_and_scream_round_trip() {
    for ident in ["XMLHttpRequest", "uI_oi8", "Point2D", "a-b_c", "snake__case", "", "ÄbcDef"] {
        let sn = snake(ident);
        let sc = scream(ident);
        assert_eq!(snake(&sn), sn);
        assert_eq!(snake(&sc), sn);
        assert_eq!(scream(&sn), sc);
        assert_eq!(scream(&sc), sc);
    }
    assert_eq!(snake(&scream("uI_oi8")), "u_i_oi8");
}

#[test]
fn split_exactly_at_documented_boundaries() {
    assert_eq!(split("aB"), vec!["a", "B"]);
    assert_eq!(split("ABc"), vec!["A", "Bc"]);
    assert_eq!(split("ABC"), vec!["ABC"]);
    assert_eq!(split("a1B"), vec!["a1B"]);
    assert_eq!(split("A1b"), vec!["A1b"]);
    assert_eq!(split("ab-cd"), vec!["ab", "cd"]);
}

use bridge_gen::includes::{Capability, Include, IncludeKind, Includes};

fn quoted(path: &str) -> Include {
    Include { path: path.to_string(), kind: IncludeKind::Quoted }
}

fn bracketed(path: &str) -> Include {
    Include { path: path.to_string(), kind: IncludeKind::Bracketed }
}

const ALL: [Capability; 12] = [
    Capability::Array,
    Capability::Cstddef,
    Capability::Cstdint,
    Capability::Cstring,
    Capability::Exception,
    Capability::Memory,
    Capability::New,
    Capability::String,
    Capability::TypeTraits,
    Capability::Utility,
    Capability::Vector,
    Capability::Basetsd,
];

#[test]
fn new_registry_renders_nothing() {
    assert_eq!(Includes::new().render(), "");
    assert_eq!(Includes::default().render(), "");
    for capability in ALL {
        assert!(!Includes::new().is_set(capability));
    }
}

#[test]
fn custom_headers_render_in_insertion_order() {
    let mut includes = Includes::new();
    includes.insert(quoted("b.h"));
    includes.insert(bracketed("a"));
    includes.insert(quoted("dir/c.h"));
    assert_eq!(
        includes.render(),
        "#include \"b.h\"\n#include <a>\n#include \"dir/c.h\"\n"
    );
}

#[test]
fn same_header_twice_gives_two_equal_lines() {
    let mut includes = Includes::new();
    includes.insert(quoted("x.h"));
    includes.insert(quoted("x.h"));
    assert_eq!(includes.render(), "#include \"x.h\"\n#include \"x.h\"\n");
}

#[test]
fn same_capability_twice_gives_one_reference() {
    let mut includes = Includes::new();
    includes.set(Capability::Memory);
    includes.set(Capability::Memory);
    assert_eq!(includes.render(), "#include <memory>\n");
    assert!(includes.is_set(Capability::Memory));
    assert!(!includes.is_set(Capability::Vector));
}

#[test]
fn capabilities_render_in_their_fixed_order() {
    let mut includes = Includes::new();
    for capability in ALL.iter().rev() {
        includes.set(*capability);
    }
    assert_eq!(
        includes.render(),
        "#include <array>\n#include <cstddef>\n#include <cstdint>\n#include <cstring>\n#include <exception>\n#include <memory>\n#include <new>\n#include <string>\n#include <type_traits>\n#include <utility>\n#include <vector>\n#if defined(_WIN32)\n#include <basetsd.h>\n#endif\n"
    );
}

#[test]
fn each_capability_has_its_own_reference() {
    let expected = [
        "#include <array>\n",
        "#include <cstddef>\n",
        "#include <cstdint>\n",
        "#include <cstring>\n",
        "#include <exception>\n",
        "#include <memory>\n",
        "#include <new>\n",
        "#include <string>\n",
        "#include <type_traits>\n",
        "#include <utility>\n",
        "#include <vector>\n",
        "#if defined(_WIN32)\n#include <basetsd.h>\n#endif\n",
    ];
    for (capability, text) in ALL.iter().zip(expected.iter()) {
        let mut includes = Includes::new();
        includes.set(*capability);
        assert_eq!(includes.render(), *text);
        for other in ALL {
            assert_eq!(includes.is_set(other), other == *capability);
        }
    }
}

#[test]
fn custom_headers_come_before_capabilities() {
    let mut includes = Includes::new();
    includes.set(Capability::Vector);
    includes.insert(bracketed("first"));
    includes.set(Capability::Array);
    includes.insert(quoted("second.h"));
    assert_eq!(
        includes.render(),
        "#include <first>\n#include \"second.h\"\n#include <array>\n#include <vector>\n"
    );
}

#[test]
fn quoted_paths_are_escaped_and_bracketed_paths_are_not() {
    let mut includes = Includes::new();
    includes.insert(quoted("a\\b\"c'\t\r\n\u{0}\u{1f}\u{7f}\u{e9}\u{1f600} ~"));
    includes.insert(bracketed("a\\b\"c'\u{e9}"));
    assert_eq!(
        includes.render(),
        "#include \"a\\\\b\\\"c\\'\\t\\r\\n\\u{0}\\u{1f}\\u{7f}\\u{e9}\\u{1f600} ~\"\n#include <a\\b\"c'\u{e9}>\n"
    );
}

#[test]
fn escaping_agrees_with_the_standard_library() {
    let samples = [
        "",
        "plain/path.h",
        "tab\there",
        "quote\"s and 'apostrophes'",
        "back\\slash",
        "\u{0}\u{7}\u{f}\u{10}\u{ff}\u{100}\u{fff}\u{1000}\u{ffff}\u{10000}\u{10ffff}",
        "\u{d7ff}\u{e000}\u{80}\u{7e}\u{7f}\u{20}\u{1f}",
    ];
    for sample in samples {
        let mut includes = Includes::new();
        includes.insert(quoted(sample));
        assert_eq!(
            includes.render(),
            format!("#include \"{}\"\n", sample.escape_default())
        );
    }
}

#[test]
fn extend_appends_in_order_and_keeps_duplicates() {
    let mut includes = Includes::new();
    includes.insert(quoted("zero.h"));
    includes.set(Capability::New);
    let more = vec![bracketed("one"), quoted("two.h"), bracketed("one")];
    includes.extend(&more);
    includes.extend(&[]);
    assert_eq!(
        includes.render(),
        "#include \"zero.h\"\n#include <one>\n#include \"two.h\"\n#include <one>\n#include <new>\n"
    );
    assert_eq!(more.len(), 3);
}

#[test]
fn rendering_twice_gives_the_same_text() {
    let mut includes = Includes::new();
    includes.insert(quoted("x.h"));
    includes.set(Capability::Basetsd);
    let first = includes.render();
    let second = includes.render();
    assert_eq!(first, second);
    assert_eq!(first, "#include \"x.h\"\n#if defined(_WIN32)\n#include <basetsd.h>\n#endif\n");
}

#[test]
fn inserting_clears_no_capability() {
    let mut includes = Includes::new();
    includes.set(Capability::Cstring);
    includes.insert(quoted("x.h"));
    includes.extend(&[bracketed("y")]);
    includes.set(Capability::Utility);
    assert!(includes.is_set(Capability::Cstring));
    assert!(includes.is_set(Capability::Utility));
}

#[test]
fn clone_of_a_header_is_equal_to_it() {
    let header = quoted("x.h");
    assert_eq!(header.clone(), header);
    assert_ne!(header, bracketed("x.h"));
}

#[test]
fn registries_with_the_same_content_are_equal() {
    let mut one = Includes::new();
    one.set(Capability::Vector);
    one.insert(quoted("x.h"));
    one.set(Capability::Array);
    one.set(Capability::Vector);
    let mut other = Includes::new();
    other.insert(quoted("x.h"));
    other.set(Capability::Array);
    other.set(Capability::Vector);
    assert_eq!(one, other);
    assert_eq!(Includes::new(), Includes::default());
    other.set(Capability::Memory);
    assert_ne!(one, other);
    one.set(Capability::Memory);
    assert_eq!(one, other);
    one.insert(quoted("x.h"));
    assert_ne!(one, other);
    let mut first = Includes::new();
    first.insert(quoted("a.h"));
    first.insert(quoted("b.h"));
    let mut second = Includes::new();
    second.insert(quoted("b.h"));
    second.insert(quoted("a.h"));
    assert_ne!(first, second);
}

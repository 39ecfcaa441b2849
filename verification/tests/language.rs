use codebase_context::language::{detect_language, extension, language_for};

#[test]
fn special_names_have_their_own_tag() {
    assert_eq!(detect_language("Dockerfile"), "dockerfile");
    assert_eq!(detect_language("dockerfile"), "dockerfile");
    assert_eq!(detect_language("Makefile"), "makefile");
    assert_eq!(detect_language("MAKEFILE"), "makefile");
}

#[test]
fn special_name_wins_over_extension() {
    assert_eq!(language_for("makefile", "rs"), "makefile");
    assert_eq!(language_for("dockerfile", "py"), "dockerfile");
}

#[test]
fn special_name_with_extension_is_not_special() {
    assert_eq!(detect_language("Dockerfile.dev"), "text");
    assert_eq!(detect_language("Makefile.rs"), "rust");
}

#[test]
fn every_extension_of_the_table_is_mapped() {
    let table = [
        ("py", "python"),
        ("pyi", "python"),
        ("pyx", "python"),
        ("js", "javascript"),
        ("jsx", "javascript"),
        ("ts", "typescript"),
        ("tsx", "typescript"),
        ("html", "html"),
        ("css", "css"),
        ("scss", "css"),
        ("rs", "rust"),
        ("go", "go"),
        ("java", "java"),
        ("c", "c"),
        ("h", "c"),
        ("cpp", "cpp"),
        ("hpp", "cpp"),
        ("sh", "bash"),
        ("bash", "bash"),
        ("md", "markdown"),
        ("json", "json"),
        ("toml", "toml"),
        ("yaml", "yaml"),
        ("yml", "yaml"),
        ("sql", "sql"),
        ("xml", "xml"),
    ];
    for (ext, tag) in table {
        assert_eq!(language_for("file", ext), tag, "extension {}", ext);
        assert_eq!(detect_language(&format!("module.{}", ext)), tag, "extension {}", ext);
    }
}

#[test]
fn extensions_are_compared_in_lowercase() {
    assert_eq!(detect_language("SCRIPT.PY"), "python");
    assert_eq!(detect_language("Main.Rs"), "rust");
    assert_eq!(detect_language("README.MD"), "markdown");
}

#[test]
fn lowercase_follows_unicode() {
    // U+212A KELVIN SIGN has the small letter k as its lowercase form.
    assert_eq!(detect_language("Ma\u{212A}efile"), "makefile");
    assert_eq!(detect_language("notes.\u{212A}"), "text");
}

#[test]
fn unknown_extension_is_text() {
    assert_eq!(detect_language("archive.tar.gz"), "text");
    assert_eq!(detect_language("photo.jpeg"), "text");
    assert_eq!(detect_language("weird.rsx"), "text");
    assert_eq!(language_for("file", "zzz"), "text");
}

#[test]
fn missing_extension_is_text() {
    assert_eq!(detect_language("LICENSE"), "text");
    assert_eq!(detect_language(""), "text");
    assert_eq!(detect_language("trailing."), "text");
    assert_eq!(language_for("license", ""), "text");
}

#[test]
fn leading_dot_is_no_extension() {
    assert_eq!(detect_language(".bashrc"), "text");
    assert_eq!(detect_language(".json"), "text");
    assert_eq!(detect_language(".hidden.json"), "json");
    assert_eq!(detect_language(".."), "text");
}

#[test]
fn only_the_last_extension_counts() {
    assert_eq!(detect_language("bundle.min.js"), "javascript");
    assert_eq!(detect_language("data.json.bak"), "text");
}

#[test]
fn same_name_gives_same_tag() {
    for name in ["a.rs", "Dockerfile", "x", "b.unknown", "ÄÖ.PY"] {
        assert_eq!(detect_language(name), detect_language(name));
    }
}

#[test]
fn extension_is_what_follows_the_last_dot() {
    assert_eq!(extension("main.rs"), "rs");
    assert_eq!(extension("a.tar.gz"), "gz");
    assert_eq!(extension("Main.RS"), "RS");
    assert_eq!(extension("noext"), "");
    assert_eq!(extension(".profile"), "");
    assert_eq!(extension(".profile.d"), "d");
    assert_eq!(extension("dot."), "");
    assert_eq!(extension(""), "");
    assert_eq!(extension("."), "");
    assert_eq!(extension(".."), "");
    assert_eq!(extension("naïve.tëxt"), "tëxt");
}

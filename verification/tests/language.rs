use editor_access::language::{get_file_language, language_for_extension};

#[test]
fn every_listed_extension_has_its_language() {
    let table = [
        ("rs", "rust"), ("js", "javascript"), ("mjs", "javascript"), ("cjs", "javascript"),
        ("ts", "typescript"), ("mts", "typescript"), ("cts", "typescript"), ("jsx", "jsx"),
        ("tsx", "tsx"), ("py", "python"), ("pyw", "python"), ("java", "java"), ("c", "c"),
        ("cpp", "cpp"), ("cc", "cpp"), ("cxx", "cpp"), ("c++", "cpp"), ("h", "cpp"),
        ("hpp", "cpp"), ("hxx", "cpp"), ("cs", "csharp"), ("go", "go"), ("rb", "ruby"),
        ("php", "php"), ("swift", "swift"), ("kt", "kotlin"), ("kts", "kotlin"),
        ("scala", "scala"), ("r", "r"), ("html", "html"), ("htm", "html"), ("css", "css"),
        ("scss", "sass"), ("sass", "sass"), ("less", "less"), ("json", "json"), ("xml", "xml"),
        ("xsl", "xml"), ("xslt", "xml"), ("svg", "xml"), ("yaml", "yaml"), ("yml", "yaml"),
        ("toml", "toml"), ("md", "markdown"), ("markdown", "markdown"), ("sql", "sql"),
        ("sh", "shell"), ("bash", "shell"), ("zsh", "shell"), ("ps1", "powershell"),
        ("psm1", "powershell"), ("bat", "shell"), ("cmd", "shell"), ("lua", "lua"),
        ("perl", "perl"), ("pl", "perl"), ("pm", "perl"), ("dockerfile", "dockerfile"),
        ("makefile", "cmake"), ("cmake", "cmake"), ("ini", "ini"), ("cfg", "ini"),
        ("conf", "ini"), ("txt", "plaintext"), ("log", "plaintext"),
    ];
    for (extension, language) in table {
        assert_eq!(language_for_extension(extension), language, "{}", extension);
        assert_eq!(get_file_language(&format!("file.{}", extension)), language, "{}", extension);
    }
}

#[test]
fn unknown_extension_is_plain_text() {
    assert_eq!(language_for_extension("xyz"), "plaintext");
    assert_eq!(language_for_extension(""), "plaintext");
    assert_eq!(get_file_language("notes.xyz"), "plaintext");
}

#[test]
fn name_without_extension_is_plain_text() {
    assert_eq!(get_file_language("Makefile"), "plaintext");
    assert_eq!(get_file_language("Dockerfile"), "plaintext");
    assert_eq!(get_file_language(".gitignore"), "plaintext");
    assert_eq!(get_file_language(""), "plaintext");
    assert_eq!(get_file_language("rs"), "plaintext");
}

#[test]
fn extension_is_taken_without_regard_to_case() {
    assert_eq!(get_file_language("MAIN.RS"), "rust");
    assert_eq!(get_file_language("Index.Html"), "html");
    assert_eq!(get_file_language("build.CMake"), "cmake");
}

#[test]
fn listed_extensions_are_matched_in_lower_case_only() {
    assert_eq!(language_for_extension("RS"), "plaintext");
}

#[test]
fn only_the_last_extension_counts() {
    assert_eq!(get_file_language("archive.rs.txt"), "plaintext");
    assert_eq!(get_file_language("data.json.py"), "python");
}

#[test]
fn language_is_taken_from_the_file_name_of_a_path() {
    assert_eq!(get_file_language("/home/u/project/src/main.rs"), "rust");
    assert_eq!(get_file_language("/home/u/project.d/notes"), "plaintext");
}

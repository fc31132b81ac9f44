//! The language that a file is shown in, by the extension of its name.

use vstd::prelude::*;
use vstd::string::*;
use crate::path::{extension, extension_of_path};
use crate::text::{chars_of, lowercase, spells, to_lowercase};

verus! {

/// The tag of the language that files with `extension` are written in.
/// The extension is expected in lower case. One that is not listed, the
/// empty one among them, stands for plain text.
pub open spec fn language_of(extension: Seq<char>) -> Seq<char> {
    if extension == "rs"@ {
        "rust"@
    } else if extension == "js"@ || extension == "mjs"@ || extension == "cjs"@ {
        "javascript"@
    } else if extension == "ts"@ || extension == "mts"@ || extension == "cts"@ {
        "typescript"@
    } else if extension == "jsx"@ {
        "jsx"@
    } else if extension == "tsx"@ {
        "tsx"@
    } else if extension == "py"@ || extension == "pyw"@ {
        "python"@
    } else if extension == "java"@ {
        "java"@
    } else if extension == "c"@ {
        "c"@
    } else if extension == "cpp"@ || extension == "cc"@ || extension == "cxx"@ || extension == "c++"@ {
        "cpp"@
    } else if extension == "h"@ || extension == "hpp"@ || extension == "hxx"@ {
        "cpp"@
    } else if extension == "cs"@ {
        "csharp"@
    } else if extension == "go"@ {
        "go"@
    } else if extension == "rb"@ {
        "ruby"@
    } else if extension == "php"@ {
        "php"@
    } else if extension == "swift"@ {
        "swift"@
    } else if extension == "kt"@ || extension == "kts"@ {
        "kotlin"@
    } else if extension == "scala"@ {
        "scala"@
    } else if extension == "r"@ {
        "r"@
    } else if extension == "html"@ || extension == "htm"@ {
        "html"@
    } else if extension == "css"@ {
        "css"@
    } else if extension == "scss"@ || extension == "sass"@ {
        "sass"@
    } else if extension == "less"@ {
        "less"@
    } else if extension == "json"@ {
        "json"@
    } else if extension == "xml"@ || extension == "xsl"@ || extension == "xslt"@ || extension == "svg"@ {
        "xml"@
    } else if extension == "yaml"@ || extension == "yml"@ {
        "yaml"@
    } else if extension == "toml"@ {
        "toml"@
    } else if extension == "md"@ || extension == "markdown"@ {
        "markdown"@
    } else if extension == "sql"@ {
        "sql"@
    } else if extension == "sh"@ || extension == "bash"@ || extension == "zsh"@ {
        "shell"@
    } else if extension == "ps1"@ || extension == "psm1"@ {
        "powershell"@
    } else if extension == "bat"@ || extension == "cmd"@ {
        "shell"@
    } else if extension == "lua"@ {
        "lua"@
    } else if extension == "perl"@ || extension == "pl"@ || extension == "pm"@ {
        "perl"@
    } else if extension == "dockerfile"@ {
        "dockerfile"@
    } else if extension == "makefile"@ {
        "cmake"@
    } else if extension == "cmake"@ {
        "cmake"@
    } else if extension == "ini"@ || extension == "cfg"@ || extension == "conf"@ {
        "ini"@
    } else {
        "plaintext"@
    }
}

/// The tag of the language that files with `extension` are written in, as
/// `language_of` lists them.
pub fn language_for_extension(extension: &str) -> (tag: String)
    ensures
        tag@ == language_of(extension@),
{
    let chars = chars_of(extension);
    let tag = if spells(&chars, "rs") {
        "rust"
    } else if spells(&chars, "js") || spells(&chars, "mjs") || spells(&chars, "cjs") {
        "javascript"
    } else if spells(&chars, "ts") || spells(&chars, "mts") || spells(&chars, "cts") {
        "typescript"
    } else if spells(&chars, "jsx") {
        "jsx"
    } else if spells(&chars, "tsx") {
        "tsx"
    } else if spells(&chars, "py") || spells(&chars, "pyw") {
        "python"
    } else if spells(&chars, "java") {
        "java"
    } else if spells(&chars, "c") {
        "c"
    } else if spells(&chars, "cpp") || spells(&chars, "cc") || spells(&chars, "cxx") || spells(&chars, "c++") {
        "cpp"
    } else if spells(&chars, "h") || spells(&chars, "hpp") || spells(&chars, "hxx") {
        "cpp"
    } else if spells(&chars, "cs") {
        "csharp"
    } else if spells(&chars, "go") {
        "go"
    } else if spells(&chars, "rb") {
        "ruby"
    } else if spells(&chars, "php") {
        "php"
    } else if spells(&chars, "swift") {
        "swift"
    } else if spells(&chars, "kt") || spells(&chars, "kts") {
        "kotlin"
    } else if spells(&chars, "scala") {
        "scala"
    } else if spells(&chars, "r") {
        "r"
    } else if spells(&chars, "html") || spells(&chars, "htm") {
        "html"
    } else if spells(&chars, "css") {
        "css"
    } else if spells(&chars, "scss") || spells(&chars, "sass") {
        "sass"
    } else if spells(&chars, "less") {
        "less"
    } else if spells(&chars, "json") {
        "json"
    } else if spells(&chars, "xml") || spells(&chars, "xsl") || spells(&chars, "xslt") || spells(&chars, "svg") {
        "xml"
    } else if spells(&chars, "yaml") || spells(&chars, "yml") {
        "yaml"
    } else if spells(&chars, "toml") {
        "toml"
    } else if spells(&chars, "md") || spells(&chars, "markdown") {
        "markdown"
    } else if spells(&chars, "sql") {
        "sql"
    } else if spells(&chars, "sh") || spells(&chars, "bash") || spells(&chars, "zsh") {
        "shell"
    } else if spells(&chars, "ps1") || spells(&chars, "psm1") {
        "powershell"
    } else if spells(&chars, "bat") || spells(&chars, "cmd") {
        "shell"
    } else if spells(&chars, "lua") {
        "lua"
    } else if spells(&chars, "perl") || spells(&chars, "pl") || spells(&chars, "pm") {
        "perl"
    } else if spells(&chars, "dockerfile") {
        "dockerfile"
    } else if spells(&chars, "makefile") {
        "cmake"
    } else if spells(&chars, "cmake") {
        "cmake"
    } else if spells(&chars, "ini") || spells(&chars, "cfg") || spells(&chars, "conf") {
        "ini"
    } else {
        "plaintext"
    };
    String::from_str(tag)
}

/// The tag of the language that the file called `file_name` is shown in:
/// that of its extension, in whatever case the extension is written. It
/// never fails: a name without an extension, or with one that is not
/// listed, is plain text.
pub fn get_file_language(file_name: &str) -> (tag: String)
    ensures
        tag@ == language_of(lowercase(extension_of_path(file_name@))),
{
    let found = extension(file_name);
    let lowered = to_lowercase(found.as_str());
    language_for_extension(lowered.as_str())
}

} // verus!

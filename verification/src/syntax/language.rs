//! Programming languages and how they are told apart.

use tree_sitter::Language as Grammar;
use vstd::prelude::*;

use crate::bytes;
use crate::path;
use crate::path::RepoPath;
use crate::text;

verus! {

/// A grammar, opaque here.
#[verifier::external_type_specification]
#[verifier::external_body]
pub struct ExGrammar(Grammar);

/// Programming languages whose sources can be parsed.
#[derive(Debug, Clone, Copy, PartialEq, Eq, Structural)]
pub enum Language {
    Rust,
    C,
    Cpp,
    Python,
    Swift,
    Bash,
    JavaScript,
    TypeScript,
    Tsx,
    Css,
    Html,
    Toml,
    Json,
}

/// The Markdown code-fence identifier of a language.
pub open spec fn fence_name(language: Language) -> Seq<char> {
    match language {
        Language::Rust => "rust"@,
        Language::C => "c"@,
        Language::Cpp => "cpp"@,
        Language::Python => "python"@,
        Language::Swift => "swift"@,
        Language::Bash => "bash"@,
        Language::JavaScript => "javascript"@,
        Language::TypeScript => "typescript"@,
        Language::Tsx => "tsx"@,
        Language::Css => "css"@,
        Language::Html => "html"@,
        Language::Toml => "toml"@,
        Language::Json => "json"@,
    }
}

/// The language of a file extension. The extension `h` is C++.
pub open spec fn extension_language(extension: Seq<char>) -> Option<Language> {
    if extension == "rs"@ {
        Some(Language::Rust)
    } else if extension == "c"@ {
        Some(Language::C)
    } else if extension == "h"@ || extension == "cc"@ || extension == "cpp"@ || extension == "cxx"@
        || extension == "hh"@ || extension == "hpp"@ || extension == "hxx"@ {
        Some(Language::Cpp)
    } else if extension == "py"@ {
        Some(Language::Python)
    } else if extension == "swift"@ {
        Some(Language::Swift)
    } else if extension == "sh"@ || extension == "bash"@ {
        Some(Language::Bash)
    } else if extension == "js"@ || extension == "mjs"@ || extension == "cjs"@ || extension
        == "jsx"@ {
        Some(Language::JavaScript)
    } else if extension == "ts"@ || extension == "mts"@ || extension == "cts"@ {
        Some(Language::TypeScript)
    } else if extension == "tsx"@ {
        Some(Language::Tsx)
    } else if extension == "css"@ {
        Some(Language::Css)
    } else if extension == "html"@ || extension == "htm"@ {
        Some(Language::Html)
    } else if extension == "toml"@ {
        Some(Language::Toml)
    } else if extension == "json"@ {
        Some(Language::Json)
    } else {
        None
    }
}

/// The language that an interpreter runs.
pub open spec fn interpreter_language(command: Seq<char>) -> Option<Language> {
    if command == "sh"@ || command == "bash"@ {
        Some(Language::Bash)
    } else if command == "python"@ || command == "python2"@ || command == "python3"@ {
        Some(Language::Python)
    } else if command == "node"@ || command == "nodejs"@ || command == "bun"@ {
        Some(Language::JavaScript)
    } else if command == "deno"@ {
        Some(Language::TypeScript)
    } else if command == "swift"@ {
        Some(Language::Swift)
    } else {
        None
    }
}

/// What follows `#!` on the first line of a source, without surrounding white space.
pub open spec fn shebang(source: Seq<u8>) -> Option<Seq<char>> {
    let line = source.take(text::find(source, bytes::LINE_FEED));
    if vstd::utf8::valid_utf8(line) && text::starts_with(vstd::utf8::decode_utf8(line), "#!"@) {
        Some(text::trim(vstd::utf8::decode_utf8(line).skip("#!"@.len() as int)))
    } else {
        None
    }
}

/// What follows the last slash of a text, or the whole text.
pub open spec fn after_last_slash(line: Seq<char>) -> Seq<char> {
    line.skip(text::find_last(line, '/') + 1)
}

/// The interpreter that a shebang line names: through `/usr/bin/env`, its first argument (the
/// second after `-S`); otherwise the file name of the first word.
pub open spec fn interpreter(line: Seq<char>) -> Option<Seq<char>> {
    if text::starts_with(line, "/usr/bin/env"@) {
        let arguments = text::words(line.skip("/usr/bin/env"@.len() as int));
        if arguments.len() > 0 && arguments[0] != "-S"@ {
            Some(arguments[0])
        } else if arguments.len() > 1 {
            Some(arguments[1])
        } else {
            None
        }
    } else {
        let arguments = text::words(after_last_slash(line));
        if arguments.len() > 0 {
            Some(arguments[0])
        } else {
            None
        }
    }
}

/// The language of a source by its shebang line.
pub open spec fn shebang_language(source: Seq<u8>) -> Option<Language> {
    match shebang(source) {
        Some(line) => match interpreter(line) {
            Some(command) => interpreter_language(command),
            None => None,
        },
        None => None,
    }
}

/// The language of a path by its extension.
pub open spec fn path_language(path: Seq<u8>) -> Option<Language> {
    match path::extension(path) {
        Some(extension) => if vstd::utf8::valid_utf8(extension) {
            extension_language(vstd::utf8::decode_utf8(extension))
        } else {
            None
        },
        None => None,
    }
}

/// The language of a file: by its extension where that is known, otherwise by its shebang line.
pub open spec fn detected(path: Seq<u8>, source: Seq<u8>) -> Option<Language> {
    match path_language(path) {
        Some(language) => Some(language),
        None => shebang_language(source),
    }
}

impl Language {
    /// Language identifier suitable for Markdown code fences.
    pub fn fence_name(self) -> (name: &'static str)
        ensures
            name@ == fence_name(self),
    {
        match self {
            Language::Rust => "rust",
            Language::C => "c",
            Language::Cpp => "cpp",
            Language::Python => "python",
            Language::Swift => "swift",
            Language::Bash => "bash",
            Language::JavaScript => "javascript",
            Language::TypeScript => "typescript",
            Language::Tsx => "tsx",
            Language::Css => "css",
            Language::Html => "html",
            Language::Toml => "toml",
            Language::Json => "json",
        }
    }

    /// Infer the language of a file from its extension, falling back to its shebang.
    pub fn detect(path: &RepoPath, source: &[u8]) -> (language: Option<Language>)
        ensures
            language == detected(path@, source@),
    {
        let by_extension = match path.extension() {
            Some(extension) => match text::strict_text(&extension) {
                Some(name) => Language::from_extension(&name),
                None => None,
            },
            None => None,
        };
        match by_extension {
            Some(language) => Some(language),
            None => Language::from_shebang(source),
        }
    }

    /// Infer the language from a file extension such as `rs` (without the dot).
    ///
    /// The extension `h` is always mapped to C++, not C.
    pub fn from_extension(extension: &str) -> (language: Option<Language>)
        ensures
            language == extension_language(extension@),
    {
        if text::same_text(extension, "rs") {
            Some(Language::Rust)
        } else if text::same_text(extension, "c") {
            Some(Language::C)
        } else if text::same_text(extension, "h") || text::same_text(extension, "cc")
            || text::same_text(extension, "cpp") || text::same_text(extension, "cxx")
            || text::same_text(extension, "hh") || text::same_text(extension, "hpp")
            || text::same_text(extension, "hxx") {
            Some(Language::Cpp)
        } else if text::same_text(extension, "py") {
            Some(Language::Python)
        } else if text::same_text(extension, "swift") {
            Some(Language::Swift)
        } else if text::same_text(extension, "sh") || text::same_text(extension, "bash") {
            Some(Language::Bash)
        } else if text::same_text(extension, "js") || text::same_text(extension, "mjs")
            || text::same_text(extension, "cjs") || text::same_text(extension, "jsx") {
            Some(Language::JavaScript)
        } else if text::same_text(extension, "ts") || text::same_text(extension, "mts")
            || text::same_text(extension, "cts") {
            Some(Language::TypeScript)
        } else if text::same_text(extension, "tsx") {
            Some(Language::Tsx)
        } else if text::same_text(extension, "css") {
            Some(Language::Css)
        } else if text::same_text(extension, "html") || text::same_text(extension, "htm") {
            Some(Language::Html)
        } else if text::same_text(extension, "toml") {
            Some(Language::Toml)
        } else if text::same_text(extension, "json") {
            Some(Language::Json)
        } else {
            None
        }
    }

    /// Infer the language from the source file's shebang line.
    pub fn from_shebang(source: &[u8]) -> (language: Option<Language>)
        ensures
            language == shebang_language(source@),
    {
        assert(source@.skip(0) =~= source@);
        let end = bytes::find_byte(source, 0, bytes::LINE_FEED);
        let line = bytes::bytes_between(source, 0, end);
        assert(line@ =~= source@.take(end as int));
        let decoded = match text::strict_text(&line) {
            Some(decoded) => decoded,
            None => return None,
        };
        let command_line = match text::after_prefix(&decoded, "#!") {
            Some(rest) => text::trimmed(&rest),
            None => return None,
        };
        match interpreter_of(&command_line) {
            Some(command) => if text::same_text(&command, "sh") || text::same_text(&command, "bash") {
                Some(Language::Bash)
            } else if text::same_text(&command, "python") || text::same_text(&command, "python2")
                || text::same_text(&command, "python3") {
                Some(Language::Python)
            } else if text::same_text(&command, "node") || text::same_text(&command, "nodejs")
                || text::same_text(&command, "bun") {
                Some(Language::JavaScript)
            } else if text::same_text(&command, "deno") {
                Some(Language::TypeScript)
            } else if text::same_text(&command, "swift") {
                Some(Language::Swift)
            } else {
                None
            },
            None => None,
        }
    }
}

/// The interpreter that a shebang line names.
fn interpreter_of(line: &str) -> (command: Option<String>)
    ensures
        match command {
            Some(found) => interpreter(line@) == Some(found@),
            None => interpreter(line@) is None,
        },
{
    match text::after_prefix(line, "/usr/bin/env") {
        Some(rest) => {
            let arguments = text::words_of(&rest);
            assert(text::texts(arguments@).len() == arguments@.len());
            if arguments.len() > 0 {
                assert(text::texts(arguments@)[0] == arguments@[0]@);
                if !text::same_text(&arguments[0], "-S") {
                    return Some(arguments[0].clone());
                }
            }
            if arguments.len() > 1 {
                assert(text::texts(arguments@)[1] == arguments@[1]@);
                Some(arguments[1].clone())
            } else {
                None
            }
        },
        None => {
            let chars = text::chars_of(line);
            let mut at: usize = chars.len();
            assert(chars@.take(at as int) =~= chars@);
            while at > 0 && chars[at - 1] != '/'
                invariant
                    at <= chars@.len(),
                    text::find_last(chars@.take(at as int), '/') == text::find_last(chars@, '/'),
                decreases at,
            {
                assert(chars@.take(at as int).drop_last() =~= chars@.take(at - 1));
                at = at - 1;
            }
            let name = text::text_between(&chars, at, chars.len());
            assert(name@ =~= after_last_slash(line@));
            let arguments = text::words_of(&name);
            assert(text::texts(arguments@).len() == arguments@.len());
            if arguments.len() > 0 {
                assert(text::texts(arguments@)[0] == arguments@[0]@);
                Some(arguments[0].clone())
            } else {
                None
            }
        },
    }
}

/// The Tree-sitter grammar of a language.
pub uninterp spec fn grammar(language: Language) -> Grammar;

impl Language {
    /// The corresponding grammar: the `LANGUAGE` constant of the crate that holds it, as
    /// [`tree_sitter::Language`]. Each language has its own; what a grammar accepts is not stated.
    #[verifier::external_body]
    pub fn tree_sitter(self) -> (result: Grammar)
        ensures
            result == grammar(self),
    {
        match self {
            Language::Rust => tree_sitter_rust::LANGUAGE.into(),
            Language::C => tree_sitter_c::LANGUAGE.into(),
            Language::Cpp => tree_sitter_cpp::LANGUAGE.into(),
            Language::Python => tree_sitter_python::LANGUAGE.into(),
            Language::Swift => tree_sitter_swift::LANGUAGE.into(),
            Language::Bash => tree_sitter_bash::LANGUAGE.into(),
            Language::JavaScript => tree_sitter_javascript::LANGUAGE.into(),
            Language::TypeScript => tree_sitter_typescript::LANGUAGE_TYPESCRIPT.into(),
            Language::Tsx => tree_sitter_typescript::LANGUAGE_TSX.into(),
            Language::Css => tree_sitter_css::LANGUAGE.into(),
            Language::Html => tree_sitter_html::LANGUAGE.into(),
            Language::Toml => tree_sitter_toml_ng::LANGUAGE.into(),
            Language::Json => tree_sitter_json::LANGUAGE.into(),
        }
    }
}

/// A known extension decides the language, whatever the source holds.
pub proof fn lemma_extension_takes_precedence(path: Seq<u8>, source: Seq<u8>, other: Seq<u8>)
    requires
        path_language(path) is Some,
    ensures
        detected(path, source) == detected(path, other),
        detected(path, source) == path_language(path),
{
}

/// A file whose name ends in `.rs` is Rust source, whatever it holds; a file whose extension says
/// nothing is what its first line says.
#[verifier::rlimit(50)]
pub proof fn lemma_rust_files_end_in_rs(path: Seq<u8>, stem: Seq<u8>, source: Seq<u8>)
    ensures
        path::file_name(path) == Some(stem.push(path::DOT) + seq![114u8, 115u8]) && stem.len() > 0
            ==> detected(path, source) == Some(Language::Rust),
        path_language(path) is None ==> detected(path, source) == shebang_language(source),
        detected(path, source) is None ==> path_language(path) is None && shebang_language(
            source,
        ) is None,
{
    let ending = seq![114u8, 115u8];
    path::lemma_extensions_follow_the_last_dot(path, stem, ending);
    reveal_strlit("rs");
    assert("rs"@ =~= seq!['r', 's']);
    vstd::utf8::is_ascii_chars_encode_utf8("rs"@);
    assert(vstd::utf8::encode_utf8("rs"@) =~= ending);
    vstd::utf8::encode_utf8_valid_utf8("rs"@);
    vstd::utf8::encode_utf8_decode_utf8("rs"@);
}

/// Languages that differ have different names.
#[verifier::rlimit(50)]
pub proof fn lemma_names_tell_languages_apart(left: Language, right: Language)
    ensures
        fence_name(left) == fence_name(right) ==> left == right,
{
    reveal_strlit("rust");
    reveal_strlit("c");
    reveal_strlit("cpp");
    reveal_strlit("python");
    reveal_strlit("swift");
    reveal_strlit("bash");
    reveal_strlit("javascript");
    reveal_strlit("typescript");
    reveal_strlit("tsx");
    reveal_strlit("css");
    reveal_strlit("html");
    reveal_strlit("toml");
    reveal_strlit("json");
    let a = fence_name(left);
    let b = fence_name(right);
    assert(a.len() == b.len() && a[0] == b[0] && (a.len() > 1 ==> a[1] == b[1]) ==> left == right);
}

/// A script names its interpreter by the last part of a path, or as the first argument of
/// `/usr/bin/env`, with or without `-S` before it.
pub proof fn lemma_interpreters_are_found_behind_env(rest: Seq<char>, line: Seq<char>)
    ensures
        text::words(rest).len() > 0 && text::words(rest)[0] != "-S"@ ==> interpreter(
            "/usr/bin/env"@ + rest,
        ) == Some(text::words(rest)[0]),
        text::words(rest).len() > 1 && text::words(rest)[0] == "-S"@ ==> interpreter(
            "/usr/bin/env"@ + rest,
        ) == Some(text::words(rest)[1]),
        !text::starts_with(line, "/usr/bin/env"@) && !line.contains('/') && text::words(line).len()
            > 0 ==> interpreter(line) == Some(text::words(line)[0]),
{
    let env = "/usr/bin/env"@ + rest;
    assert(env.take("/usr/bin/env"@.len() as int) =~= "/usr/bin/env"@);
    assert(env.skip("/usr/bin/env"@.len() as int) =~= rest);
    if !line.contains('/') {
        lemma_finds_no_slash(line);
        assert(line.skip(0) =~= line);
    }
}

proof fn lemma_finds_no_slash(line: Seq<char>)
    requires
        !line.contains('/'),
    ensures
        text::find_last(line, '/') == -1,
    decreases line.len(),
{
    if line.len() > 0 {
        assert(line[line.len() - 1] == line.last());
        let rest = line.drop_last();
        assert forall|i: int| 0 <= i < rest.len() implies rest[i] != '/' by {
            assert(line[i] == rest[i]);
        }
        lemma_finds_no_slash(rest);
    }
}

/// A language is named only by the extensions that its files are known by.
pub proof fn lemma_languages_have_their_extensions(extension: Seq<char>)
    ensures
        extension_language(extension) == Some(Language::Rust) ==> extension == "rs"@,
        extension_language(extension) == Some(Language::C) ==> extension == "c"@,
        extension_language(extension) == Some(Language::Cpp) ==> extension == "h"@ || extension
            == "cc"@ || extension == "cpp"@ || extension == "cxx"@ || extension == "hh"@
            || extension == "hpp"@ || extension == "hxx"@,
        extension_language(extension) == Some(Language::Python) ==> extension == "py"@,
        extension_language(extension) == Some(Language::Swift) ==> extension == "swift"@,
        extension_language(extension) == Some(Language::Bash) ==> extension == "sh"@ || extension
            == "bash"@,
        extension_language(extension) == Some(Language::JavaScript) ==> extension == "js"@
            || extension == "mjs"@ || extension == "cjs"@ || extension == "jsx"@,
        extension_language(extension) == Some(Language::TypeScript) ==> extension == "ts"@
            || extension == "mts"@ || extension == "cts"@,
        extension_language(extension) == Some(Language::Tsx) ==> extension == "tsx"@,
        extension_language(extension) == Some(Language::Css) ==> extension == "css"@,
        extension_language(extension) == Some(Language::Html) ==> extension == "html"@ || extension
            == "htm"@,
        extension_language(extension) == Some(Language::Toml) ==> extension == "toml"@,
        extension_language(extension) == Some(Language::Json) ==> extension == "json"@,
        extension == "h"@ || extension == "cc"@ || extension == "cpp"@ || extension == "cxx"@
            || extension == "hh"@ || extension == "hpp"@ || extension == "hxx"@ || extension
            == "py"@ || extension == "swift"@ || extension == "sh"@ || extension == "bash"@
            || extension == "js"@ || extension == "mjs"@ || extension == "cjs"@ || extension
            == "jsx"@ || extension == "ts"@ || extension == "mts"@ || extension == "cts"@
            || extension == "tsx"@ || extension == "css"@ || extension == "html"@ || extension
            == "htm"@ || extension == "toml"@ || extension == "json"@ || extension == "rs"@
            || extension == "c"@ ==> extension_language(extension) is Some,
{
}

} // verus!

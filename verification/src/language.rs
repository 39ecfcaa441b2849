//! Language tags from file names: a short list of well-known names, then a
//! table of extensions, then the tag `text`.

use crate::text::{chars_of, push_char, same_text};
use vstd::prelude::*;

verus! {

/// What `str::to_lowercase` returns for a text: its lowercase form by the
/// Unicode character database.
pub uninterp spec fn lowercase(s: Seq<char>) -> Seq<char>;

/// `str::to_lowercase`. The result is a function of the text alone.
#[verifier::external_body]
fn to_lowercase(s: &str) -> (r: String)
    ensures
        r@ == lowercase(s@),
{
    s.to_lowercase()
}

/// Position of the last full stop of `name`, or -1 where it holds none.
pub open spec fn last_dot(name: Seq<char>) -> int
    decreases name.len(),
{
    if name.len() == 0 {
        -1
    } else if name.last() == '.' {
        name.len() - 1
    } else {
        last_dot(name.drop_last())
    }
}

/// The extension of a file name: what follows its last full stop. A name
/// without a full stop has the empty extension, and so has a name whose only
/// full stop is its first character.
pub open spec fn extension_of(name: Seq<char>) -> Seq<char> {
    if last_dot(name) <= 0 {
        Seq::empty()
    } else {
        name.skip(last_dot(name) + 1)
    }
}

/// `last_dot` is the only position that holds a full stop and has none
/// behind it.
pub proof fn lemma_last_dot_is(name: Seq<char>, k: int)
    requires
        -1 <= k < name.len(),
        k >= 0 ==> name[k] == '.',
        forall|j: int| k < j < name.len() ==> name[j] != '.',
    ensures
        last_dot(name) == k,
    decreases name.len(),
{
    if name.len() > 0 && name.last() != '.' {
        lemma_last_dot_is(name.drop_last(), k);
    }
}

/// The extension of a file name, without its full stop.
pub fn extension(name: &str) -> (ext: String)
    ensures
        ext@ == extension_of(name@),
{
    let chars = chars_of(name);
    let mut dot: usize = chars.len();
    while dot > 0 && chars[dot - 1] != '.'
        invariant
            dot <= chars.len(),
            forall|j: int| dot <= j < chars.len() ==> chars@[j] != '.',
        decreases dot,
    {
        dot -= 1;
    }
    proof {
        lemma_last_dot_is(chars@, dot as int - 1);
    }
    let mut ext = String::new();
    if dot <= 1 {
        return ext;
    }
    let mut i: usize = dot;
    while i < chars.len()
        invariant
            dot <= i <= chars.len(),
            ext@ == chars@.subrange(dot as int, i as int),
        decreases chars.len() - i,
    {
        push_char(&mut ext, chars[i]);
        assert(chars@.subrange(dot as int, i + 1) =~= chars@.subrange(dot as int, i as int).push(
            chars@[i as int],
        ));
        i += 1;
    }
    ext
}

/// The tag of a file whose lowercase name is `name` and whose lowercase
/// extension is `ext`.
pub open spec fn language_tag(name: Seq<char>, ext: Seq<char>) -> Seq<char> {
    if name == "dockerfile"@ {
        "dockerfile"@
    } else if name == "makefile"@ {
        "makefile"@
    } else if ext == "py"@ || ext == "pyi"@ || ext == "pyx"@ {
        "python"@
    } else if ext == "js"@ || ext == "jsx"@ {
        "javascript"@
    } else if ext == "ts"@ || ext == "tsx"@ {
        "typescript"@
    } else if ext == "html"@ {
        "html"@
    } else if ext == "css"@ || ext == "scss"@ {
        "css"@
    } else if ext == "rs"@ {
        "rust"@
    } else if ext == "go"@ {
        "go"@
    } else if ext == "java"@ {
        "java"@
    } else if ext == "c"@ || ext == "h"@ {
        "c"@
    } else if ext == "cpp"@ || ext == "hpp"@ {
        "cpp"@
    } else if ext == "sh"@ || ext == "bash"@ {
        "bash"@
    } else if ext == "md"@ {
        "markdown"@
    } else if ext == "json"@ {
        "json"@
    } else if ext == "toml"@ {
        "toml"@
    } else if ext == "yaml"@ || ext == "yml"@ {
        "yaml"@
    } else if ext == "sql"@ {
        "sql"@
    } else if ext == "xml"@ {
        "xml"@
    } else {
        "text"@
    }
}

/// The file names that have a tag of their own, whatever their extension.
pub open spec fn is_special_name(name: Seq<char>) -> bool {
    name == "dockerfile"@ || name == "makefile"@
}

/// The extensions that the table maps to a tag.
pub open spec fn is_known_extension(ext: Seq<char>) -> bool {
    ||| ext == "py"@ || ext == "pyi"@ || ext == "pyx"@
    ||| ext == "js"@ || ext == "jsx"@
    ||| ext == "ts"@ || ext == "tsx"@
    ||| ext == "html"@
    ||| ext == "css"@ || ext == "scss"@
    ||| ext == "rs"@
    ||| ext == "go"@
    ||| ext == "java"@
    ||| ext == "c"@ || ext == "h"@
    ||| ext == "cpp"@ || ext == "hpp"@
    ||| ext == "sh"@ || ext == "bash"@
    ||| ext == "md"@
    ||| ext == "json"@
    ||| ext == "toml"@
    ||| ext == "yaml"@ || ext == "yml"@
    ||| ext == "sql"@
    ||| ext == "xml"@
}

/// The vocabulary of tags.
pub open spec fn is_language_tag(tag: Seq<char>) -> bool {
    ||| tag == "dockerfile"@ || tag == "makefile"@ || tag == "python"@
    ||| tag == "javascript"@ || tag == "typescript"@ || tag == "html"@
    ||| tag == "css"@ || tag == "rust"@ || tag == "go"@
    ||| tag == "java"@ || tag == "c"@ || tag == "cpp"@
    ||| tag == "bash"@ || tag == "markdown"@ || tag == "json"@
    ||| tag == "toml"@ || tag == "yaml"@ || tag == "sql"@
    ||| tag == "xml"@ || tag == "text"@
}

/// The tag of a file, from the lowercase forms of its name and extension.
pub fn language_for(name: &str, ext: &str) -> (tag: String)
    ensures
        tag@ == language_tag(name@, ext@),
{
    let tag = if same_text(name, "dockerfile") {
        "dockerfile"
    } else if same_text(name, "makefile") {
        "makefile"
    } else if same_text(ext, "py") || same_text(ext, "pyi") || same_text(ext, "pyx") {
        "python"
    } else if same_text(ext, "js") || same_text(ext, "jsx") {
        "javascript"
    } else if same_text(ext, "ts") || same_text(ext, "tsx") {
        "typescript"
    } else if same_text(ext, "html") {
        "html"
    } else if same_text(ext, "css") || same_text(ext, "scss") {
        "css"
    } else if same_text(ext, "rs") {
        "rust"
    } else if same_text(ext, "go") {
        "go"
    } else if same_text(ext, "java") {
        "java"
    } else if same_text(ext, "c") || same_text(ext, "h") {
        "c"
    } else if same_text(ext, "cpp") || same_text(ext, "hpp") {
        "cpp"
    } else if same_text(ext, "sh") || same_text(ext, "bash") {
        "bash"
    } else if same_text(ext, "md") {
        "markdown"
    } else if same_text(ext, "json") {
        "json"
    } else if same_text(ext, "toml") {
        "toml"
    } else if same_text(ext, "yaml") || same_text(ext, "yml") {
        "yaml"
    } else if same_text(ext, "sql") {
        "sql"
    } else if same_text(ext, "xml") {
        "xml"
    } else {
        "text"
    };
    tag.to_owned()
}

/// The tag that `detect_language` gives a file name.
pub open spec fn language_of(file_name: Seq<char>) -> Seq<char> {
    language_tag(lowercase(file_name), lowercase(extension_of(file_name)))
}

/// The language tag of a file, by its name alone: the last component of its
/// path. The name and its extension are compared in lowercase.
pub fn detect_language(file_name: &str) -> (tag: String)
    ensures
        tag@ == language_of(file_name@),
{
    let name = to_lowercase(file_name);
    let ext = extension(file_name);
    let ext = to_lowercase(ext.as_str());
    language_for(name.as_str(), ext.as_str())
}

/// The tag depends on the file name alone: equal names have equal tags.
pub proof fn law_language_is_determined(a: Seq<char>, b: Seq<char>)
    requires
        a == b,
    ensures
        language_of(a) == language_of(b),
{
}

/// Every file name has a tag, and the tag is one of the vocabulary.
pub proof fn law_language_is_total(file_name: Seq<char>)
    ensures
        is_language_tag(language_of(file_name)),
{
}

/// A file whose name, in lowercase, is not special and whose extension, in
/// lowercase, the table does not hold has the tag `text`.
pub proof fn law_unknown_extension_is_text(name: Seq<char>, ext: Seq<char>)
    requires
        !is_special_name(name),
        !is_known_extension(ext),
    ensures
        language_tag(name, ext) == "text"@,
{
}

} // verus!

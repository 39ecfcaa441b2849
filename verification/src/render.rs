//! The encodings of the output. Each is given in pieces, a head, one piece
//! for each file and, where the encoding has one, a tail, so that a writer
//! can send the document on piece by piece and never holds all of it.
//!
//! All encodings carry the same result: the root, the time, the totals, the
//! tree and the artifacts in their order.

use crate::aggregate::{artifact_views, AggregationResult, AggregationView};
use crate::text::{decimal_text, ends_with_char, push_char, push_decimal};
use crate::transform::{ArtifactView, FileArtifact};
use vstd::prelude::*;
use vstd::string::StringExecFns;

verus! {

/// What stands for a character in markup: an entity for each of the five
/// reserved characters, the character itself for every other.
pub open spec fn escaped_char(c: char) -> Seq<char> {
    if c == '&' {
        "&amp;"@
    } else if c == '<' {
        "&lt;"@
    } else if c == '>' {
        "&gt;"@
    } else if c == '"' {
        "&quot;"@
    } else if c == '\'' {
        "&apos;"@
    } else {
        seq![c]
    }
}

/// A text with every reserved character replaced by its entity.
pub open spec fn escaped(s: Seq<char>) -> Seq<char>
    decreases s.len(),
{
    if s.len() == 0 {
        Seq::empty()
    } else {
        escaped_char(s[0]) + escaped(s.drop_first())
    }
}

/// Whether `s` begins with `prefix`.
pub open spec fn begins_with(s: Seq<char>, prefix: Seq<char>) -> bool {
    prefix.len() <= s.len() && s.take(prefix.len() as int) == prefix
}

/// A text with each of the five entities replaced by its character.
pub open spec fn unescaped(s: Seq<char>) -> Seq<char>
    decreases s.len(),
{
    if s.len() == 0 {
        Seq::empty()
    } else if s.len() >= 5 && begins_with(s, "&amp;"@) {
        seq!['&'] + unescaped(s.skip(5))
    } else if s.len() >= 4 && begins_with(s, "&lt;"@) {
        seq!['<'] + unescaped(s.skip(4))
    } else if s.len() >= 4 && begins_with(s, "&gt;"@) {
        seq!['>'] + unescaped(s.skip(4))
    } else if s.len() >= 6 && begins_with(s, "&quot;"@) {
        seq!['"'] + unescaped(s.skip(6))
    } else if s.len() >= 6 && begins_with(s, "&apos;"@) {
        seq!['\''] + unescaped(s.skip(6))
    } else {
        seq![s[0]] + unescaped(s.drop_first())
    }
}

/// Appends the escaped form of `input` to `out`.
pub fn push_escaped(out: &mut String, input: &str)
    ensures
        final(out)@ == old(out)@ + escaped(input@),
{
    let ghost s = input@;
    assert(s.skip(0) =~= s);
    let ghost mut done: Seq<char> = Seq::empty();
    for c in it: input.chars()
        invariant
            it.seq() == s,
            s == input@,
            out@ == old(out)@ + done,
            escaped(s) == done + escaped(s.skip(it.index())),
    {
        let ghost i = it.index();
        proof {
            assert(s.skip(i).drop_first() =~= s.skip(i + 1));
            done = done + escaped_char(c);
        }
        if c == '&' {
            out.append("&amp;");
        } else if c == '<' {
            out.append("&lt;");
        } else if c == '>' {
            out.append("&gt;");
        } else if c == '"' {
            out.append("&quot;");
        } else if c == '\'' {
            out.append("&apos;");
        } else {
            push_char(out, c);
        }
    }
}

/// The text with `&`, `<`, `>`, `"` and `'` replaced by their entities.
pub fn escape_xml(input: &str) -> (out: String)
    ensures
        out@ == escaped(input@),
{
    let mut out = String::new();
    push_escaped(&mut out, input);
    out
}

/// What stands for a character is read back as that character, whatever
/// follows it.
proof fn lemma_unescape_one(c: char, rest: Seq<char>)
    ensures
        unescaped(escaped_char(c) + rest) == seq![c] + unescaped(rest),
{
    reveal_strlit("&amp;");
    reveal_strlit("&lt;");
    reveal_strlit("&gt;");
    reveal_strlit("&quot;");
    reveal_strlit("&apos;");
    let e = escaped_char(c);
    let s = e + rest;
    assert(s.skip(e.len() as int) =~= rest);
    assert(s.take(e.len() as int) =~= e);
    if c == '&' {
    } else if c == '<' {
        assert(s.len() >= 5 ==> s.take(5)[1] != "&amp;"@[1]);
    } else if c == '>' {
        assert(s.len() >= 5 ==> s.take(5)[1] != "&amp;"@[1]);
        assert(s.len() >= 4 ==> s.take(4)[1] != "&lt;"@[1]);
    } else if c == '"' {
        assert(s.len() >= 5 ==> s.take(5)[1] != "&amp;"@[1]);
        assert(s.len() >= 4 ==> s.take(4)[1] != "&lt;"@[1]);
        assert(s.len() >= 4 ==> s.take(4)[1] != "&gt;"@[1]);
    } else if c == '\'' {
        assert(s.len() >= 5 ==> s.take(5)[2] != "&amp;"@[2]);
        assert(s.len() >= 4 ==> s.take(4)[1] != "&lt;"@[1]);
        assert(s.len() >= 4 ==> s.take(4)[1] != "&gt;"@[1]);
        assert(s.len() >= 6 ==> s.take(6)[1] != "&quot;"@[1]);
    } else {
        assert(s[0] == c);
        assert(s.len() >= 5 ==> s.take(5)[0] != "&amp;"@[0]);
        assert(s.len() >= 4 ==> s.take(4)[0] != "&lt;"@[0]);
        assert(s.len() >= 4 ==> s.take(4)[0] != "&gt;"@[0]);
        assert(s.len() >= 6 ==> s.take(6)[0] != "&quot;"@[0]);
        assert(s.len() >= 6 ==> s.take(6)[0] != "&apos;"@[0]);
        assert(s.drop_first() =~= rest);
    }
}

/// Escaping loses nothing: replacing the entities of an escaped text by
/// their characters gives the text back.
pub proof fn law_escape_is_invertible(s: Seq<char>)
    ensures
        unescaped(escaped(s)) == s,
    decreases s.len(),
{
    if s.len() > 0 {
        law_escape_is_invertible(s.drop_first());
        lemma_unescape_one(s[0], escaped(s.drop_first()));
    }
}

/// Two texts with the same escaped form are the same text.
pub proof fn law_escape_is_injective(a: Seq<char>, b: Seq<char>)
    requires
        escaped(a) == escaped(b),
    ensures
        a == b,
{
    law_escape_is_invertible(a);
    law_escape_is_invertible(b);
}

/// The head of the document-style text: title, summary and tree.
pub open spec fn markdown_head(result: AggregationView) -> Seq<char> {
    "# 📦 Codebase Context: "@ + result.root_name + "\n> Generated on "@ + result.generated_at
        + " | Files: "@ + decimal_text(result.total_files) + " | Tokens: ~"@ + decimal_text(
        result.total_tokens,
    ) + "\n\n## 🌲 Project Structure\n```text\n"@ + result.tree
        + "\n```\n\n## 📄 File Contents\n"@
}

/// The mark on the metadata line of a truncated file.
pub open spec fn markdown_truncation_mark(is_truncated: bool) -> Seq<char> {
    if is_truncated {
        " | ⚠️ TRUNCATED"@
    } else {
        Seq::empty()
    }
}

/// The line feed that closes a content that does not end in one.
pub open spec fn closing_line_feed(content: Seq<char>) -> Seq<char> {
    if content.len() > 0 && content.last() == '\n' {
        Seq::empty()
    } else {
        "\n"@
    }
}

/// The section of one file in the document-style text: heading, metadata
/// line, content in a fence, separator.
pub open spec fn markdown_section(artifact: ArtifactView) -> Seq<char> {
    "\n### `"@ + artifact.relative_path + "`\n_Language: "@ + artifact.language + " | Lines: "@
        + decimal_text(artifact.lines) + " | Tokens: ~"@ + decimal_text(artifact.token_estimate)
        + markdown_truncation_mark(artifact.is_truncated) + "_\n```"@ + artifact.language + "\n"@
        + artifact.content + closing_line_feed(artifact.content) + "```\n---\n"@
}

/// The pieces of the files, one after the other.
pub open spec fn sections(
    artifacts: Seq<ArtifactView>,
    piece: spec_fn(ArtifactView) -> Seq<char>,
) -> Seq<char>
    decreases artifacts.len(),
{
    if artifacts.len() == 0 {
        Seq::empty()
    } else {
        sections(artifacts.drop_last(), piece) + piece(artifacts.last())
    }
}

/// The whole document-style text.
pub open spec fn markdown_document(result: AggregationView) -> Seq<char> {
    markdown_head(result) + sections(result.artifacts, |a: ArtifactView| markdown_section(a))
}

/// The head of the document-style text.
pub fn render_markdown_head(result: &AggregationResult) -> (out: String)
    ensures
        out@ == markdown_head(result@),
{
    let mut out = String::new();
    out.append("# 📦 Codebase Context: ");
    out.append(result.root_name.as_str());
    out.append("\n> Generated on ");
    out.append(result.generated_at.as_str());
    out.append(" | Files: ");
    push_decimal(&mut out, result.total_files as u64);
    out.append(" | Tokens: ~");
    push_decimal(&mut out, result.total_tokens as u64);
    out.append("\n\n## 🌲 Project Structure\n```text\n");
    out.append(result.tree.as_str());
    out.append("\n```\n\n## 📄 File Contents\n");
    out
}

/// The section of one file in the document-style text.
pub fn render_markdown_section(artifact: &FileArtifact) -> (out: String)
    ensures
        out@ == markdown_section(artifact@),
{
    let mut out = String::new();
    out.append("\n### `");
    out.append(artifact.relative_path.as_str());
    out.append("`\n_Language: ");
    out.append(artifact.language.as_str());
    out.append(" | Lines: ");
    push_decimal(&mut out, artifact.lines as u64);
    out.append(" | Tokens: ~");
    push_decimal(&mut out, artifact.token_estimate as u64);
    if artifact.is_truncated {
        out.append(" | ⚠️ TRUNCATED");
    }
    out.append("_\n```");
    out.append(artifact.language.as_str());
    out.append("\n");
    out.append(artifact.content.as_str());
    if !ends_with_char(artifact.content.as_str(), '\n') {
        out.append("\n");
    }
    out.append("```\n---\n");
    out
}

/// The whole document-style text: the head, then the sections of the files
/// in their order.
pub fn render_markdown(result: &AggregationResult) -> (out: String)
    ensures
        out@ == markdown_document(result@),
{
    let mut out = render_markdown_head(result);
    let ghost all = artifact_views(result.artifacts@);
    let ghost piece = |a: ArtifactView| markdown_section(a);
    let mut i: usize = 0;
    while i < result.artifacts.len()
        invariant
            i <= result.artifacts.len(),
            all == artifact_views(result.artifacts@),
            all == result@.artifacts,
            piece == |a: ArtifactView| markdown_section(a),
            out@ == markdown_head(result@) + sections(all.take(i as int), piece),
        decreases result.artifacts.len() - i,
    {
        let section = render_markdown_section(&result.artifacts[i]);
        out.append(section.as_str());
        proof {
            assert(all.take(i + 1).drop_last() =~= all.take(i as int));
            assert(piece(result.artifacts[i as int]@) == markdown_section(
                result.artifacts[i as int]@,
            ));
        }
        i += 1;
    }
    assert(all.take(all.len() as int) =~= all);
    out
}

/// The head of the markup: declaration, metadata and tree, and the opening
/// of the list of files.
pub open spec fn xml_head(result: AggregationView) -> Seq<char> {
    "<?xml version=\"1.0\" encoding=\"UTF-8\"?>\n<codebase>\n  <metadata>\n    <root_path>"@
        + escaped(result.root_path) + "</root_path>\n    <generated_at>"@ + escaped(
        result.generated_at,
    ) + "</generated_at>\n    <total_files>"@ + decimal_text(result.total_files)
        + "</total_files>\n    <total_tokens>"@ + decimal_text(result.total_tokens)
        + "</total_tokens>\n  </metadata>\n  <project_tree>\n"@ + escaped(result.tree)
        + "\n  </project_tree>\n  <files>\n"@
}

/// The element that marks a truncated file.
pub open spec fn xml_truncation_mark(is_truncated: bool) -> Seq<char> {
    if is_truncated {
        "      <truncated>true</truncated>\n"@
    } else {
        Seq::empty()
    }
}

/// The element of one file in the markup.
pub open spec fn xml_file(artifact: ArtifactView) -> Seq<char> {
    "    <file>\n      <path>"@ + escaped(artifact.relative_path) + "</path>\n      <language>"@
        + escaped(artifact.language) + "</language>\n      <lines>"@ + decimal_text(
        artifact.lines,
    ) + "</lines>\n      <tokens>"@ + decimal_text(artifact.token_estimate) + "</tokens>\n"@
        + xml_truncation_mark(artifact.is_truncated) + "      <content>"@ + escaped(
        artifact.content,
    ) + "</content>\n    </file>\n"@
}

/// The tail of the markup.
pub open spec fn xml_tail() -> Seq<char> {
    "  </files>\n</codebase>\n"@
}

/// The whole markup.
pub open spec fn xml_document(result: AggregationView) -> Seq<char> {
    xml_head(result) + sections(result.artifacts, |a: ArtifactView| xml_file(a)) + xml_tail()
}

/// The head of the markup.
pub fn render_xml_head(result: &AggregationResult) -> (out: String)
    ensures
        out@ == xml_head(result@),
{
    let mut out = String::new();
    out.append(
        "<?xml version=\"1.0\" encoding=\"UTF-8\"?>\n<codebase>\n  <metadata>\n    <root_path>",
    );
    push_escaped(&mut out, result.root_path.as_str());
    out.append("</root_path>\n    <generated_at>");
    push_escaped(&mut out, result.generated_at.as_str());
    out.append("</generated_at>\n    <total_files>");
    push_decimal(&mut out, result.total_files as u64);
    out.append("</total_files>\n    <total_tokens>");
    push_decimal(&mut out, result.total_tokens as u64);
    out.append("</total_tokens>\n  </metadata>\n  <project_tree>\n");
    push_escaped(&mut out, result.tree.as_str());
    out.append("\n  </project_tree>\n  <files>\n");
    out
}

/// The element of one file in the markup.
pub fn render_xml_file(artifact: &FileArtifact) -> (out: String)
    ensures
        out@ == xml_file(artifact@),
{
    let mut out = String::new();
    out.append("    <file>\n      <path>");
    push_escaped(&mut out, artifact.relative_path.as_str());
    out.append("</path>\n      <language>");
    push_escaped(&mut out, artifact.language.as_str());
    out.append("</language>\n      <lines>");
    push_decimal(&mut out, artifact.lines as u64);
    out.append("</lines>\n      <tokens>");
    push_decimal(&mut out, artifact.token_estimate as u64);
    out.append("</tokens>\n");
    if artifact.is_truncated {
        out.append("      <truncated>true</truncated>\n");
    }
    out.append("      <content>");
    push_escaped(&mut out, artifact.content.as_str());
    out.append("</content>\n    </file>\n");
    out
}

/// The tail of the markup.
pub fn render_xml_tail() -> (out: String)
    ensures
        out@ == xml_tail(),
{
    "  </files>\n</codebase>\n".to_owned()
}

/// The whole markup: the head, the elements of the files in their order,
/// and the tail.
pub fn render_xml(result: &AggregationResult) -> (out: String)
    ensures
        out@ == xml_document(result@),
{
    let mut out = render_xml_head(result);
    let ghost all = artifact_views(result.artifacts@);
    let ghost piece = |a: ArtifactView| xml_file(a);
    let mut i: usize = 0;
    while i < result.artifacts.len()
        invariant
            i <= result.artifacts.len(),
            all == artifact_views(result.artifacts@),
            all == result@.artifacts,
            piece == |a: ArtifactView| xml_file(a),
            out@ == xml_head(result@) + sections(all.take(i as int), piece),
        decreases result.artifacts.len() - i,
    {
        let element = render_xml_file(&result.artifacts[i]);
        out.append(element.as_str());
        proof {
            assert(all.take(i + 1).drop_last() =~= all.take(i as int));
            assert(piece(result.artifacts[i as int]@) == xml_file(result.artifacts[i as int]@));
        }
        i += 1;
    }
    assert(all.take(all.len() as int) =~= all);
    out.append("  </files>\n</codebase>\n");
    out
}

/// The line that sums the run up for the user.
pub open spec fn summary_line(result: AggregationView) -> Seq<char> {
    "📊 Stats: "@ + decimal_text(result.total_files) + " files, "@ + decimal_text(
        result.total_lines,
    ) + " lines, ~"@ + decimal_text(result.total_tokens) + " tokens"@
}

/// The line that sums the run up for the user: how many files were
/// included, and their lines and tokens.
pub fn render_summary(result: &AggregationResult) -> (out: String)
    ensures
        out@ == summary_line(result@),
{
    let mut out = String::new();
    out.append("📊 Stats: ");
    push_decimal(&mut out, result.total_files as u64);
    out.append(" files, ");
    push_decimal(&mut out, result.total_lines as u64);
    out.append(" lines, ~");
    push_decimal(&mut out, result.total_tokens as u64);
    out.append(" tokens");
    out
}

/// The metadata of the serialized tree.
#[derive(Debug)]
pub struct Metadata {
    pub root_path: String,
    pub generated_at: String,
    pub total_files: usize,
    pub total_tokens: usize,
    pub total_lines: usize,
}

/// The serialized tree: what a serializer is handed. It borrows the tree
/// and the artifacts from the result.
#[derive(Debug)]
pub struct CodebaseResult<'a> {
    pub metadata: Metadata,
    pub project_tree: &'a str,
    pub files: &'a Vec<FileArtifact>,
}

/// The serialized tree of a result: its metadata, its tree and its artifacts
/// in their order.
pub fn codebase_result<'a>(result: &'a AggregationResult) -> (tree: CodebaseResult<'a>)
    ensures
        tree.metadata.root_path@ == result@.root_path,
        tree.metadata.generated_at@ == result@.generated_at,
        tree.metadata.total_files == result@.total_files,
        tree.metadata.total_tokens == result@.total_tokens,
        tree.metadata.total_lines == result@.total_lines,
        tree.project_tree@ == result@.tree,
        artifact_views(tree.files@) == result@.artifacts,
{
    CodebaseResult {
        metadata: Metadata {
            root_path: result.root_path.clone(),
            generated_at: result.generated_at.clone(),
            total_files: result.total_files,
            total_tokens: result.total_tokens,
            total_lines: result.total_lines,
        },
        project_tree: result.tree.as_str(),
        files: &result.artifacts,
    }
}

} // verus!

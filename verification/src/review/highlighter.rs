//! Syntax colours for source text.

use crate::text;
use vstd::prelude::*;

verus! {

/// The grammars that can be highlighted.
#[derive(Clone, Copy, Debug, PartialEq, Eq, Structural)]
pub enum Grammar {
    Rust,
    JavaScript,
    TypeScript,
    Python,
    Go,
    Java,
    C,
    Cpp,
    Ruby,
    Swift,
    Scala,
    Zig,
    Bash,
    Html,
    Css,
    Json,
    Toml,
    Yaml,
    Markdown,
    Sql,
    Elixir,
}

/// The colours that captures are shown in.
#[derive(Clone, Copy, Debug, PartialEq, Eq, Structural)]
pub enum HighlightColor {
    Blue,
    Green,
    Gray,
    Yellow,
    Cyan,
    LightBlue,
    Orange,
    LightGray,
    DimGray,
    Periwinkle,
    Red,
    DarkOrange,
    Teal,
    Magenta,
}

/// A colour for the bytes `start..end`.
#[derive(Clone, Copy, Debug, PartialEq, Eq, Structural)]
pub struct StyledRange {
    pub start: usize,
    pub end: usize,
    pub color: HighlightColor,
}

/// A capture of a highlights query: its name and the bytes `start..end` it covers.
#[derive(Debug)]
pub struct Capture {
    pub name: String,
    pub start: usize,
    pub end: usize,
}

/// A capture with its name as characters.
pub struct CaptureView {
    pub name: Seq<char>,
    pub start: usize,
    pub end: usize,
}

impl View for Capture {
    type V = CaptureView;

    open spec fn view(&self) -> CaptureView {
        CaptureView { name: self.name@, start: self.start, end: self.end }
    }
}

/// The views of a list of captures.
pub open spec fn capture_views(captures: Seq<Capture>) -> Seq<CaptureView> {
    captures.map_values(|capture: Capture| capture@)
}

/// The grammar of a language name.
pub open spec fn grammar_named(name: Seq<char>) -> Option<Grammar> {
    if name == "rust"@ {
        Some(Grammar::Rust)
    } else if name == "javascript"@ {
        Some(Grammar::JavaScript)
    } else if name == "typescript"@ {
        Some(Grammar::TypeScript)
    } else if name == "python"@ {
        Some(Grammar::Python)
    } else if name == "go"@ {
        Some(Grammar::Go)
    } else if name == "java"@ {
        Some(Grammar::Java)
    } else if name == "c"@ {
        Some(Grammar::C)
    } else if name == "cpp"@ {
        Some(Grammar::Cpp)
    } else if name == "ruby"@ {
        Some(Grammar::Ruby)
    } else if name == "swift"@ {
        Some(Grammar::Swift)
    } else if name == "scala"@ {
        Some(Grammar::Scala)
    } else if name == "zig"@ {
        Some(Grammar::Zig)
    } else if name == "bash"@ {
        Some(Grammar::Bash)
    } else if name == "html"@ {
        Some(Grammar::Html)
    } else if name == "css"@ {
        Some(Grammar::Css)
    } else if name == "json"@ {
        Some(Grammar::Json)
    } else if name == "toml"@ {
        Some(Grammar::Toml)
    } else if name == "yaml"@ {
        Some(Grammar::Yaml)
    } else if name == "markdown"@ {
        Some(Grammar::Markdown)
    } else if name == "sql"@ {
        Some(Grammar::Sql)
    } else if name == "elixir"@ {
        Some(Grammar::Elixir)
    } else {
        None
    }
}

/// The colour of a capture name.
pub open spec fn color_of_capture(name: Seq<char>) -> Option<HighlightColor> {
    if name == "keyword"@ || name == "keyword.return"@ || name == "keyword.function"@
        || name == "keyword.operator"@ || name == "keyword.import"@ || name == "keyword.export"@
        || name == "keyword.conditional"@ || name == "keyword.repeat"@
        || name == "keyword.exception"@ {
        Some(HighlightColor::Blue)
    } else if name == "string"@ || name == "string.special"@ {
        Some(HighlightColor::Green)
    } else if name == "comment"@ || name == "comment.doc"@ {
        Some(HighlightColor::Gray)
    } else if name == "function"@ || name == "function.call"@ || name == "function.method"@
        || name == "function.builtin"@ || name == "function.macro"@ || name == "method"@ {
        Some(HighlightColor::Yellow)
    } else if name == "type"@ || name == "type.builtin"@ || name == "constructor"@
        || name == "enum"@ || name == "variant"@ {
        Some(HighlightColor::Cyan)
    } else if name == "variable.builtin"@ || name == "variable.special"@
        || name == "variable.parameter"@ || name == "constant"@ || name == "constant.builtin"@ {
        Some(HighlightColor::LightBlue)
    } else if name == "number"@ || name == "boolean"@ || name == "float"@ {
        Some(HighlightColor::Orange)
    } else if name == "operator"@ {
        Some(HighlightColor::LightGray)
    } else if name == "punctuation"@ || name == "punctuation.bracket"@
        || name == "punctuation.delimiter"@ || name == "punctuation.special"@ {
        Some(HighlightColor::DimGray)
    } else if name == "property"@ || name == "field"@ || name == "label"@ {
        Some(HighlightColor::Periwinkle)
    } else if name == "attribute"@ || name == "tag"@ {
        Some(HighlightColor::Red)
    } else if name == "string.escape"@ || name == "string.regex"@ {
        Some(HighlightColor::DarkOrange)
    } else if name == "namespace"@ || name == "module"@ {
        Some(HighlightColor::Teal)
    } else if name == "embedded"@ || name == "preproc"@ {
        Some(HighlightColor::Magenta)
    } else {
        None
    }
}

/// The styles of the captures that have a colour and cover something, in order.
pub open spec fn styles_of(captures: Seq<CaptureView>) -> Seq<StyledRange>
    decreases captures.len(),
{
    if captures.len() == 0 {
        seq![]
    } else {
        let capture = captures.last();
        let before = styles_of(captures.drop_last());
        match color_of_capture(capture.name) {
            Some(color) if capture.start < capture.end => before.push(
                StyledRange { start: capture.start, end: capture.end, color },
            ),
            _ => before,
        }
    }
}

/// Whether a style covers the byte at `p`.
pub open spec fn covers(style: StyledRange, p: int) -> bool {
    style.start <= p < style.end
}

/// The colour of the last style that covers the byte at `p`.
pub open spec fn top_color(styles: Seq<StyledRange>, p: int) -> Option<HighlightColor>
    decreases styles.len(),
{
    if styles.len() == 0 {
        None
    } else if covers(styles.last(), p) {
        Some(styles.last().color)
    } else {
        top_color(styles.drop_last(), p)
    }
}

/// The ranges are not empty and stand one after the other, and two that touch differ in colour.
pub open spec fn is_flat(ranges: Seq<StyledRange>) -> bool {
    &&& forall|i: int| 0 <= i < ranges.len() ==> (#[trigger] ranges[i]).start < ranges[i].end
    &&& forall|i: int, j: int|
        0 <= i < j < ranges.len() ==> (#[trigger] ranges[i]).end <= (#[trigger] ranges[j]).start
    &&& forall|i: int, j: int|
        0 <= i < ranges.len() && j == i + 1 && j < ranges.len() && (#[trigger] ranges[i]).end == (
        #[trigger] ranges[j]).start ==> ranges[i].color != ranges[j].color
}

/// `flat` gives every byte the colour of the last style that covers it.
pub open spec fn flattens(flat: Seq<StyledRange>, styles: Seq<StyledRange>) -> bool {
    &&& is_flat(flat)
    &&& forall|p: int| #[trigger] top_color(flat, p) == top_color(styles, p)
}

/// A `tree-sitter` language.
#[verifier::external_type_specification]
#[verifier::external_body]
pub struct ExLanguage(tree_sitter::Language);

/// A language with the source of its highlights query.
pub struct LoadedGrammar {
    language: tree_sitter::Language,
    query: &'static str,
}

/// The grammar that a loaded one is.
pub uninterp spec fn grammar_of(loaded: LoadedGrammar) -> Grammar;

/// The captures that `tree-sitter` finds in a text, or `None` where it cannot look.
pub uninterp spec fn captures_of(grammar: Grammar, text: Seq<char>) -> Option<Seq<CaptureView>>;

/// `tree_sitter_rust::LANGUAGE` with `tree_sitter_rust::HIGHLIGHTS_QUERY`.
#[verifier::external_body]
fn load_rust() -> (loaded: LoadedGrammar)
    ensures
        grammar_of(loaded) == Grammar::Rust,
{
    LoadedGrammar {
        language: tree_sitter_rust::LANGUAGE.into(),
        query: tree_sitter_rust::HIGHLIGHTS_QUERY,
    }
}

/// `tree_sitter_javascript::LANGUAGE` with `tree_sitter_javascript::HIGHLIGHT_QUERY`.
#[verifier::external_body]
fn load_javascript() -> (loaded: LoadedGrammar)
    ensures
        grammar_of(loaded) == Grammar::JavaScript,
{
    LoadedGrammar {
        language: tree_sitter_javascript::LANGUAGE.into(),
        query: tree_sitter_javascript::HIGHLIGHT_QUERY,
    }
}

/// `tree_sitter_typescript::LANGUAGE_TYPESCRIPT` with `tree_sitter_typescript::HIGHLIGHTS_QUERY`.
#[verifier::external_body]
fn load_typescript() -> (loaded: LoadedGrammar)
    ensures
        grammar_of(loaded) == Grammar::TypeScript,
{
    LoadedGrammar {
        language: tree_sitter_typescript::LANGUAGE_TYPESCRIPT.into(),
        query: tree_sitter_typescript::HIGHLIGHTS_QUERY,
    }
}

/// `tree_sitter_python::LANGUAGE` with `tree_sitter_python::HIGHLIGHTS_QUERY`.
#[verifier::external_body]
fn load_python() -> (loaded: LoadedGrammar)
    ensures
        grammar_of(loaded) == Grammar::Python,
{
    LoadedGrammar {
        language: tree_sitter_python::LANGUAGE.into(),
        query: tree_sitter_python::HIGHLIGHTS_QUERY,
    }
}

/// `tree_sitter_go::LANGUAGE` with `tree_sitter_go::HIGHLIGHTS_QUERY`.
#[verifier::external_body]
fn load_go() -> (loaded: LoadedGrammar)
    ensures
        grammar_of(loaded) == Grammar::Go,
{
    LoadedGrammar {
        language: tree_sitter_go::LANGUAGE.into(),
        query: tree_sitter_go::HIGHLIGHTS_QUERY,
    }
}

/// `tree_sitter_java::LANGUAGE` with `tree_sitter_java::HIGHLIGHTS_QUERY`.
#[verifier::external_body]
fn load_java() -> (loaded: LoadedGrammar)
    ensures
        grammar_of(loaded) == Grammar::Java,
{
    LoadedGrammar {
        language: tree_sitter_java::LANGUAGE.into(),
        query: tree_sitter_java::HIGHLIGHTS_QUERY,
    }
}

/// `tree_sitter_c::LANGUAGE` with `tree_sitter_c::HIGHLIGHT_QUERY`.
#[verifier::external_body]
fn load_c() -> (loaded: LoadedGrammar)
    ensures
        grammar_of(loaded) == Grammar::C,
{
    LoadedGrammar {
        language: tree_sitter_c::LANGUAGE.into(),
        query: tree_sitter_c::HIGHLIGHT_QUERY,
    }
}

/// `tree_sitter_cpp::LANGUAGE` with `tree_sitter_cpp::HIGHLIGHT_QUERY`.
#[verifier::external_body]
fn load_cpp() -> (loaded: LoadedGrammar)
    ensures
        grammar_of(loaded) == Grammar::Cpp,
{
    LoadedGrammar {
        language: tree_sitter_cpp::LANGUAGE.into(),
        query: tree_sitter_cpp::HIGHLIGHT_QUERY,
    }
}

/// `tree_sitter_ruby::LANGUAGE` with `tree_sitter_ruby::HIGHLIGHTS_QUERY`.
#[verifier::external_body]
fn load_ruby() -> (loaded: LoadedGrammar)
    ensures
        grammar_of(loaded) == Grammar::Ruby,
{
    LoadedGrammar {
        language: tree_sitter_ruby::LANGUAGE.into(),
        query: tree_sitter_ruby::HIGHLIGHTS_QUERY,
    }
}

/// `tree_sitter_swift::LANGUAGE` with `tree_sitter_swift::HIGHLIGHTS_QUERY`.
#[verifier::external_body]
fn load_swift() -> (loaded: LoadedGrammar)
    ensures
        grammar_of(loaded) == Grammar::Swift,
{
    LoadedGrammar {
        language: tree_sitter_swift::LANGUAGE.into(),
        query: tree_sitter_swift::HIGHLIGHTS_QUERY,
    }
}

/// `tree_sitter_scala::LANGUAGE` with `tree_sitter_scala::HIGHLIGHTS_QUERY`.
#[verifier::external_body]
fn load_scala() -> (loaded: LoadedGrammar)
    ensures
        grammar_of(loaded) == Grammar::Scala,
{
    LoadedGrammar {
        language: tree_sitter_scala::LANGUAGE.into(),
        query: tree_sitter_scala::HIGHLIGHTS_QUERY,
    }
}

/// `tree_sitter_zig::LANGUAGE` with `tree_sitter_zig::HIGHLIGHTS_QUERY`.
#[verifier::external_body]
fn load_zig() -> (loaded: LoadedGrammar)
    ensures
        grammar_of(loaded) == Grammar::Zig,
{
    LoadedGrammar {
        language: tree_sitter_zig::LANGUAGE.into(),
        query: tree_sitter_zig::HIGHLIGHTS_QUERY,
    }
}

/// `tree_sitter_bash::LANGUAGE` with `tree_sitter_bash::HIGHLIGHT_QUERY`.
#[verifier::external_body]
fn load_bash() -> (loaded: LoadedGrammar)
    ensures
        grammar_of(loaded) == Grammar::Bash,
{
    LoadedGrammar {
        language: tree_sitter_bash::LANGUAGE.into(),
        query: tree_sitter_bash::HIGHLIGHT_QUERY,
    }
}

/// `tree_sitter_html::LANGUAGE` with `tree_sitter_html::HIGHLIGHTS_QUERY`.
#[verifier::external_body]
fn load_html() -> (loaded: LoadedGrammar)
    ensures
        grammar_of(loaded) == Grammar::Html,
{
    LoadedGrammar {
        language: tree_sitter_html::LANGUAGE.into(),
        query: tree_sitter_html::HIGHLIGHTS_QUERY,
    }
}

/// `tree_sitter_css::LANGUAGE` with `tree_sitter_css::HIGHLIGHTS_QUERY`.
#[verifier::external_body]
fn load_css() -> (loaded: LoadedGrammar)
    ensures
        grammar_of(loaded) == Grammar::Css,
{
    LoadedGrammar {
        language: tree_sitter_css::LANGUAGE.into(),
        query: tree_sitter_css::HIGHLIGHTS_QUERY,
    }
}

/// `tree_sitter_json::LANGUAGE` with `tree_sitter_json::HIGHLIGHTS_QUERY`.
#[verifier::external_body]
fn load_json() -> (loaded: LoadedGrammar)
    ensures
        grammar_of(loaded) == Grammar::Json,
{
    LoadedGrammar {
        language: tree_sitter_json::LANGUAGE.into(),
        query: tree_sitter_json::HIGHLIGHTS_QUERY,
    }
}

/// `tree_sitter_toml_ng::LANGUAGE` with `tree_sitter_toml_ng::HIGHLIGHTS_QUERY`.
#[verifier::external_body]
fn load_toml() -> (loaded: LoadedGrammar)
    ensures
        grammar_of(loaded) == Grammar::Toml,
{
    LoadedGrammar {
        language: tree_sitter_toml_ng::LANGUAGE.into(),
        query: tree_sitter_toml_ng::HIGHLIGHTS_QUERY,
    }
}

/// `tree_sitter_yaml::LANGUAGE` with `tree_sitter_yaml::HIGHLIGHTS_QUERY`.
#[verifier::external_body]
fn load_yaml() -> (loaded: LoadedGrammar)
    ensures
        grammar_of(loaded) == Grammar::Yaml,
{
    LoadedGrammar {
        language: tree_sitter_yaml::LANGUAGE.into(),
        query: tree_sitter_yaml::HIGHLIGHTS_QUERY,
    }
}

/// `tree_sitter_md::LANGUAGE` with `tree_sitter_md::HIGHLIGHT_QUERY_BLOCK`.
#[verifier::external_body]
fn load_markdown() -> (loaded: LoadedGrammar)
    ensures
        grammar_of(loaded) == Grammar::Markdown,
{
    LoadedGrammar {
        language: tree_sitter_md::LANGUAGE.into(),
        query: tree_sitter_md::HIGHLIGHT_QUERY_BLOCK,
    }
}

/// `tree_sitter_sequel::LANGUAGE` with `tree_sitter_sequel::HIGHLIGHTS_QUERY`.
#[verifier::external_body]
fn load_sql() -> (loaded: LoadedGrammar)
    ensures
        grammar_of(loaded) == Grammar::Sql,
{
    LoadedGrammar {
        language: tree_sitter_sequel::LANGUAGE.into(),
        query: tree_sitter_sequel::HIGHLIGHTS_QUERY,
    }
}

/// `tree_sitter_elixir::LANGUAGE` with `tree_sitter_elixir::HIGHLIGHTS_QUERY`.
#[verifier::external_body]
fn load_elixir() -> (loaded: LoadedGrammar)
    ensures
        grammar_of(loaded) == Grammar::Elixir,
{
    LoadedGrammar {
        language: tree_sitter_elixir::LANGUAGE.into(),
        query: tree_sitter_elixir::HIGHLIGHTS_QUERY,
    }
}

/// The language and query of a grammar.
fn load(grammar: Grammar) -> (loaded: LoadedGrammar)
    ensures
        grammar_of(loaded) == grammar,
{
    match grammar {
        Grammar::Rust => load_rust(),
        Grammar::JavaScript => load_javascript(),
        Grammar::TypeScript => load_typescript(),
        Grammar::Python => load_python(),
        Grammar::Go => load_go(),
        Grammar::Java => load_java(),
        Grammar::C => load_c(),
        Grammar::Cpp => load_cpp(),
        Grammar::Ruby => load_ruby(),
        Grammar::Swift => load_swift(),
        Grammar::Scala => load_scala(),
        Grammar::Zig => load_zig(),
        Grammar::Bash => load_bash(),
        Grammar::Html => load_html(),
        Grammar::Css => load_css(),
        Grammar::Json => load_json(),
        Grammar::Toml => load_toml(),
        Grammar::Yaml => load_yaml(),
        Grammar::Markdown => load_markdown(),
        Grammar::Sql => load_sql(),
        Grammar::Elixir => load_elixir(),
    }
}

/// Parses `text` with `tree_sitter::Parser` and gathers the captures of all matches of
/// `tree_sitter::QueryCursor`, in the order in which they come. The result is named; it is
/// `None` where the parser takes neither language nor text, or the query does not compile.
#[verifier::external_body]
fn run_query(loaded: &LoadedGrammar, text: &str) -> (r: Option<Vec<Capture>>)
    ensures
        (match r {
            Some(captures) => Some(capture_views(captures@)),
            None => None,
        }) == captures_of(grammar_of(*loaded), text@),
{
    let mut parser = tree_sitter::Parser::new();
    parser.set_language(&loaded.language).ok()?;
    let tree = parser.parse(text, None)?;
    let query = tree_sitter::Query::new(&loaded.language, loaded.query).ok()?;
    let mut cursor = tree_sitter::QueryCursor::new();
    let mut matches = cursor.matches(&query, tree.root_node(), text.as_bytes());
    let mut captures = Vec::new();
    while let Some(found) = tree_sitter::StreamingIterator::next(&mut matches) {
        for c in found.captures() {
            let name = query.capture_names()[c.index as usize].to_owned();
            captures.push(Capture { name, start: c.node.start_byte(), end: c.node.end_byte() });
        }
    }
    Some(captures)
}

/// The grammar of a language name.
pub fn get_language(name: &str) -> (r: Option<Grammar>)
    ensures
        r == grammar_named(name@),
{
    if text::same_text(name, "rust") {
        Some(Grammar::Rust)
    } else if text::same_text(name, "javascript") {
        Some(Grammar::JavaScript)
    } else if text::same_text(name, "typescript") {
        Some(Grammar::TypeScript)
    } else if text::same_text(name, "python") {
        Some(Grammar::Python)
    } else if text::same_text(name, "go") {
        Some(Grammar::Go)
    } else if text::same_text(name, "java") {
        Some(Grammar::Java)
    } else if text::same_text(name, "c") {
        Some(Grammar::C)
    } else if text::same_text(name, "cpp") {
        Some(Grammar::Cpp)
    } else if text::same_text(name, "ruby") {
        Some(Grammar::Ruby)
    } else if text::same_text(name, "swift") {
        Some(Grammar::Swift)
    } else if text::same_text(name, "scala") {
        Some(Grammar::Scala)
    } else if text::same_text(name, "zig") {
        Some(Grammar::Zig)
    } else if text::same_text(name, "bash") {
        Some(Grammar::Bash)
    } else if text::same_text(name, "html") {
        Some(Grammar::Html)
    } else if text::same_text(name, "css") {
        Some(Grammar::Css)
    } else if text::same_text(name, "json") {
        Some(Grammar::Json)
    } else if text::same_text(name, "toml") {
        Some(Grammar::Toml)
    } else if text::same_text(name, "yaml") {
        Some(Grammar::Yaml)
    } else if text::same_text(name, "markdown") {
        Some(Grammar::Markdown)
    } else if text::same_text(name, "sql") {
        Some(Grammar::Sql)
    } else if text::same_text(name, "elixir") {
        Some(Grammar::Elixir)
    } else {
        None
    }
}

/// The colour of a capture name.
pub fn style_for_capture(name: &str) -> (r: Option<HighlightColor>)
    ensures
        r == color_of_capture(name@),
{
    if text::same_text(name, "keyword") || text::same_text(name, "keyword.return")
        || text::same_text(name, "keyword.function")
        || text::same_text(name, "keyword.operator") || text::same_text(name, "keyword.import")
        || text::same_text(name, "keyword.export")
        || text::same_text(name, "keyword.conditional")
        || text::same_text(name, "keyword.repeat") || text::same_text(name, "keyword.exception") {
        Some(HighlightColor::Blue)
    } else if text::same_text(name, "string") || text::same_text(name, "string.special") {
        Some(HighlightColor::Green)
    } else if text::same_text(name, "comment") || text::same_text(name, "comment.doc") {
        Some(HighlightColor::Gray)
    } else if text::same_text(name, "function") || text::same_text(name, "function.call")
        || text::same_text(name, "function.method") || text::same_text(name, "function.builtin")
        || text::same_text(name, "function.macro") || text::same_text(name, "method") {
        Some(HighlightColor::Yellow)
    } else if text::same_text(name, "type") || text::same_text(name, "type.builtin")
        || text::same_text(name, "constructor") || text::same_text(name, "enum")
        || text::same_text(name, "variant") {
        Some(HighlightColor::Cyan)
    } else if text::same_text(name, "variable.builtin")
        || text::same_text(name, "variable.special")
        || text::same_text(name, "variable.parameter") || text::same_text(name, "constant")
        || text::same_text(name, "constant.builtin") {
        Some(HighlightColor::LightBlue)
    } else if text::same_text(name, "number") || text::same_text(name, "boolean")
        || text::same_text(name, "float") {
        Some(HighlightColor::Orange)
    } else if text::same_text(name, "operator") {
        Some(HighlightColor::LightGray)
    } else if text::same_text(name, "punctuation")
        || text::same_text(name, "punctuation.bracket")
        || text::same_text(name, "punctuation.delimiter")
        || text::same_text(name, "punctuation.special") {
        Some(HighlightColor::DimGray)
    } else if text::same_text(name, "property") || text::same_text(name, "field")
        || text::same_text(name, "label") {
        Some(HighlightColor::Periwinkle)
    } else if text::same_text(name, "attribute") || text::same_text(name, "tag") {
        Some(HighlightColor::Red)
    } else if text::same_text(name, "string.escape") || text::same_text(name, "string.regex") {
        Some(HighlightColor::DarkOrange)
    } else if text::same_text(name, "namespace") || text::same_text(name, "module") {
        Some(HighlightColor::Teal)
    } else if text::same_text(name, "embedded") || text::same_text(name, "preproc") {
        Some(HighlightColor::Magenta)
    } else {
        None
    }
}

/// The styles of the captures that have a colour and cover something.
pub fn capture_styles(captures: &Vec<Capture>) -> (styles: Vec<StyledRange>)
    ensures
        styles@ == styles_of(capture_views(captures@)),
{
    let ghost all = capture_views(captures@);
    let mut styles: Vec<StyledRange> = Vec::new();
    let mut i: usize = 0;
    while i < captures.len()
        invariant
            i <= captures@.len(),
            all == capture_views(captures@),
            styles@ == styles_of(all.take(i as int)),
        decreases captures@.len() - i,
    {
        let capture = &captures[i];
        assert(all.take(i + 1).drop_last() =~= all.take(i as int));
        assert(all.take(i + 1).last() == capture@);
        if let Some(color) = style_for_capture(capture.name.as_str()) {
            if capture.start < capture.end {
                styles.push(StyledRange { start: capture.start, end: capture.end, color });
            }
        }
        i += 1;
    }
    assert(all.take(i as int) =~= all);
    styles
}

/// The points are in ascending order, without repetition.
spec fn ascending(points: Seq<usize>) -> bool {
    forall|i: int, j: int| 0 <= i < j < points.len() ==> points[i] < points[j]
}

/// Puts a point in its place among ascending ones.
fn insert_point(points: &mut Vec<usize>, p: usize)
    requires
        ascending(old(points)@),
    ensures
        ascending(final(points)@),
        final(points)@.contains(p),
        forall|q: usize| old(points)@.contains(q) ==> final(points)@.contains(q),
{
    let mut i: usize = 0;
    while i < points.len() && points[i] < p
        invariant
            i <= points@.len(),
            forall|j: int| 0 <= j < i ==> points@[j] < p,
        decreases points@.len() - i,
    {
        i += 1;
    }
    if i < points.len() && points[i] == p {
        assert(points@[i as int] == p);
        return;
    }
    let ghost before = points@;
    points.insert(i, p);
    proof {
        assert(points@[i as int] == p);
        assert forall|q: usize| before.contains(q) implies points@.contains(q) by {
            let j = choose|j: int| 0 <= j < before.len() && before[j] == q;
            if j < i {
                assert(points@[j] == q);
            } else {
                assert(points@[j + 1] == q);
            }
        }
    }
}

/// The colour of the last style that covers all of `a..b`.
fn top_between(styles: &Vec<StyledRange>, a: usize, b: usize) -> (top: Option<HighlightColor>)
    requires
        a < b,
        forall|i: int|
            0 <= i < styles@.len() ==> (#[trigger] styles@[i]).start <= a || b
                <= styles@[i].start,
        forall|i: int|
            0 <= i < styles@.len() ==> (#[trigger] styles@[i]).end <= a || b <= styles@[i].end,
    ensures
        forall|p: int| a <= p < b ==> top == #[trigger] top_color(styles@, p),
{
    let mut top: Option<HighlightColor> = None;
    let mut k: usize = 0;
    while k < styles.len()
        invariant
            k <= styles@.len(),
            a < b,
            forall|i: int|
                0 <= i < styles@.len() ==> (#[trigger] styles@[i]).start <= a || b
                    <= styles@[i].start,
            forall|i: int|
                0 <= i < styles@.len() ==> (#[trigger] styles@[i]).end <= a || b
                    <= styles@[i].end,
            forall|p: int| a <= p < b ==> top == #[trigger] top_color(styles@.take(k as int), p),
        decreases styles@.len() - k,
    {
        let style = styles[k];
        assert(styles@.take(k + 1).drop_last() =~= styles@.take(k as int));
        let ghost before = top;
        if style.start <= a && b <= style.end {
            top = Some(style.color);
        }
        proof {
            assert forall|p: int| a <= p < b implies top == #[trigger] top_color(
                styles@.take(k + 1),
                p,
            ) by {
                assert(style == styles@[k as int]);
                assert(before == top_color(styles@.take(k as int), p));
            }
        }
        k += 1;
    }
    assert(styles@.take(k as int) =~= styles@);
    top
}

/// Flattens overlapping styles; where they overlap the later one wins. `start` and `end` bound
/// the whole text.
pub fn merge_styles(start: usize, end: usize, styles: &Vec<StyledRange>) -> (merged: Vec<
    StyledRange,
>)
    requires
        forall|i: int| 0 <= i < styles@.len() ==> (#[trigger] styles@[i]).start < styles@[i].end,
    ensures
        flattens(merged@, styles@),
{
    let mut points: Vec<usize> = Vec::new();
    insert_point(&mut points, start);
    insert_point(&mut points, end);
    let mut i: usize = 0;
    while i < styles.len()
        invariant
            i <= styles@.len(),
            ascending(points@),
            forall|j: int|
                0 <= j < i ==> points@.contains((#[trigger] styles@[j]).start) && points@.contains(
                    styles@[j].end,
                ),
        decreases styles@.len() - i,
    {
        insert_point(&mut points, styles[i].start);
        insert_point(&mut points, styles[i].end);
        i += 1;
    }
    let mut merged: Vec<StyledRange> = Vec::new();
    if points.len() == 0 {
        assert(styles@.len() == 0) by {
            if styles@.len() > 0 {
                assert(points@.contains(styles@[0].start));
            }
        }
        return merged;
    }
    let mut k: usize = 0;
    proof {
        assert forall|p: int| p < points@[0] implies top_color(merged@, p) == #[trigger] top_color(
            styles@,
            p,
        ) by {
            lemma_outside(styles@, points@, p);
        }
    }
    while k < points.len() - 1
        invariant
            k < points@.len(),
            ascending(points@),
            forall|j: int|
                0 <= j < styles@.len() ==> points@.contains((#[trigger] styles@[j]).start)
                    && points@.contains(styles@[j].end),
            is_flat(merged@),
            forall|j: int| 0 <= j < merged@.len() ==> (#[trigger] merged@[j]).end <= points@[k as int],
            forall|p: int|
                p < points@[k as int] ==> top_color(merged@, p) == #[trigger] top_color(styles@, p),
        decreases points@.len() - k,
    {
        let a: usize = points[k];
        let b: usize = points[k + 1];
        proof {
            lemma_no_point_between(styles@, points@, k as int);
        }
        let top = top_between(styles, a, b);
        let ghost before = merged@;
        if let Some(color) = top {
            let n: usize = merged.len();
            let joins = n > 0 && merged[n - 1].end == a && merged[n - 1].color == color;
            if joins {
                let last = merged[n - 1];
                merged.set(n - 1, StyledRange { start: last.start, end: b, color });
                assert(merged@.drop_last() =~= before.drop_last());
            } else {
                merged.push(StyledRange { start: a, end: b, color });
                assert(merged@.drop_last() =~= before);
            }
        }
        proof {
            assert forall|p: int| p < b implies top_color(merged@, p) == #[trigger] top_color(
                styles@,
                p,
            ) by {
                if p < a {
                    assert(top_color(before, p) == top_color(styles@, p));
                } else {
                    assert(top == top_color(styles@, p));
                    if top is None {
                        lemma_past_end(before, p);
                    }
                }
            }
        }
        k += 1;
    }
    proof {
        assert forall|p: int| #[trigger] top_color(merged@, p) == top_color(styles@, p) by {
            if p >= points@[k as int] {
                lemma_past_end(merged@, p);
                lemma_outside(styles@, points@, p);
            } else {
                assert(top_color(merged@, p) == top_color(styles@, p));
            }
        }
    }
    merged
}

proof fn lemma_past_end(ranges: Seq<StyledRange>, p: int)
    requires
        forall|j: int| 0 <= j < ranges.len() ==> (#[trigger] ranges[j]).end <= p,
    ensures
        top_color(ranges, p) is None,
    decreases ranges.len(),
{
    if ranges.len() > 0 {
        assert forall|j: int| 0 <= j < ranges.drop_last().len() implies (
        #[trigger] ranges.drop_last()[j]).end <= p by {
            assert(ranges.drop_last()[j] == ranges[j]);
        }
        lemma_past_end(ranges.drop_last(), p);
    }
}

/// No style covers a byte before the first or from the last point on.
proof fn lemma_outside(styles: Seq<StyledRange>, points: Seq<usize>, p: int)
    requires
        points.len() > 0,
        ascending(points),
        forall|j: int|
            0 <= j < styles.len() ==> points.contains((#[trigger] styles[j]).start)
                && points.contains(styles[j].end),
        p < points[0] || p >= points.last(),
    ensures
        top_color(styles, p) is None,
    decreases styles.len(),
{
    if styles.len() > 0 {
        let style = styles.last();
        assert(points.contains(styles[styles.len() - 1].start));
        let i = choose|i: int| 0 <= i < points.len() && points[i] == style.start;
        let j = choose|j: int| 0 <= j < points.len() && points[j] == style.end;
        assert(points[0] <= points[i]);
        assert(points[j] <= points[points.len() - 1]);
        assert forall|j: int| 0 <= j < styles.drop_last().len() implies points.contains(
            (#[trigger] styles.drop_last()[j]).start,
        ) && points.contains(styles.drop_last()[j].end) by {
            assert(styles.drop_last()[j] == styles[j]);
        }
        lemma_outside(styles.drop_last(), points, p);
    }
}

/// No style starts or ends between two neighbouring points.
proof fn lemma_no_point_between(styles: Seq<StyledRange>, points: Seq<usize>, k: int)
    requires
        0 <= k < points.len() - 1,
        ascending(points),
        forall|j: int|
            0 <= j < styles.len() ==> points.contains((#[trigger] styles[j]).start)
                && points.contains(styles[j].end),
    ensures
        points[k] < points[k + 1],
        forall|i: int|
            0 <= i < styles.len() ==> (#[trigger] styles[i]).start <= points[k] || points[k + 1]
                <= styles[i].start,
        forall|i: int|
            0 <= i < styles.len() ==> (#[trigger] styles[i]).end <= points[k] || points[k + 1]
                <= styles[i].end,
{
    assert forall|i: int| 0 <= i < styles.len() implies ((#[trigger] styles[i]).start <= points[k]
        || points[k + 1] <= styles[i].start) && (styles[i].end <= points[k] || points[k + 1]
        <= styles[i].end) by {
        let s = choose|j: int| 0 <= j < points.len() && points[j] == styles[i].start;
        let e = choose|j: int| 0 <= j < points.len() && points[j] == styles[i].end;
        assert(s <= k || k + 1 <= s);
        assert(e <= k || k + 1 <= e);
    }
}

/// `ranges` are the colours of `text` in a language, flat; none where the language is not known
/// or no capture has a colour.
pub open spec fn highlights(
    language: Seq<char>,
    text: Seq<char>,
    ranges: Seq<StyledRange>,
) -> bool {
    match grammar_named(language) {
        Some(grammar) => match captures_of(grammar, text) {
            Some(captures) => flattens(ranges, styles_of(captures)),
            None => ranges.len() == 0,
        },
        None => ranges.len() == 0,
    }
}

/// The colours of `text`, from the captures of its highlights query.
pub fn highlight(language_name: &str, text: &str) -> (ranges: Vec<StyledRange>)
    ensures
        highlights(language_name@, text@, ranges@),
        is_flat(ranges@),
{
    match get_language(language_name) {
        Some(grammar) => {
            let loaded = load(grammar);
            match run_query(&loaded, text) {
                Some(captures) => highlight_captures(&captures, text::byte_length(text)),
                None => Vec::new(),
            }
        },
        None => Vec::new(),
    }
}

/// The colours that the captures of a text of `len` bytes give it.
pub fn highlight_captures(captures: &Vec<Capture>, len: usize) -> (ranges: Vec<StyledRange>)
    ensures
        flattens(ranges@, styles_of(capture_views(captures@))),
{
    let styles = capture_styles(captures);
    if styles.len() == 0 {
        return Vec::new();
    }
    proof {
        lemma_styles_cover(capture_views(captures@));
    }
    merge_styles(0, len, &styles)
}

proof fn lemma_styles_cover(captures: Seq<CaptureView>)
    ensures
        forall|i: int|
            0 <= i < styles_of(captures).len() ==> (#[trigger] styles_of(captures)[i]).start
                < styles_of(captures)[i].end,
    decreases captures.len(),
{
    if captures.len() > 0 {
        lemma_styles_cover(captures.drop_last());
    }
}

/// The colour of a byte is that of the last style that covers it.
pub proof fn law_later_style_wins(styles: Seq<StyledRange>, p: int, i: int)
    requires
        0 <= i < styles.len(),
        styles[i].start <= p < styles[i].end,
        forall|j: int| i < j < styles.len() ==> p < (#[trigger] styles[j]).start || styles[j].end
            <= p,
    ensures
        top_color(styles, p) == Some(styles[i].color),
    decreases styles.len(),
{
    let last = styles.len() - 1;
    assert(styles.last() == styles[last]);
    if i < last {
        let rest = styles.drop_last();
        assert(rest[i] == styles[i]);
        assert forall|j: int| i < j < rest.len() implies p < (#[trigger] rest[j]).start
            || rest[j].end <= p by {
            assert(rest[j] == styles[j]);
        }
        law_later_style_wins(rest, p, i);
    }
}

/// A byte that no style covers has no colour.
pub proof fn law_uncovered_byte_has_no_color(styles: Seq<StyledRange>, p: int)
    requires
        forall|j: int| 0 <= j < styles.len() ==> p < (#[trigger] styles[j]).start || styles[j].end
            <= p,
    ensures
        top_color(styles, p) is None,
    decreases styles.len(),
{
    if styles.len() > 0 {
        let rest = styles.drop_last();
        assert(styles.last() == styles[styles.len() - 1]);
        assert forall|j: int| 0 <= j < rest.len() implies p < (#[trigger] rest[j]).start
            || rest[j].end <= p by {
            assert(rest[j] == styles[j]);
        }
        law_uncovered_byte_has_no_color(rest, p);
    }
}

/// Every capture that covers something and whose name has a colour gives a style for its range in
/// that colour, in the order of the captures, and no other capture gives one.
pub proof fn law_captures_give_styles(captures: Seq<CaptureView>)
    ensures
        styles_of(captures) == captures.filter_map(
            |c: CaptureView|
                match color_of_capture(c.name) {
                    Some(color) => if c.start < c.end {
                        Some(StyledRange { start: c.start, end: c.end, color })
                    } else {
                        None
                    },
                    None => None,
                },
        ),
    decreases captures.len(),
{
    if captures.len() > 0 {
        law_captures_give_styles(captures.drop_last());
        let before = styles_of(captures.drop_last());
        let capture = captures.last();
        if let Some(color) = color_of_capture(capture.name) {
            let style = StyledRange { start: capture.start, end: capture.end, color };
            assert(before.push(style) =~= before + seq![style]);
        }
    }
}

/// A byte lies in at most one of the ranges that came of styles, and that range has the colour of
/// the last style that covers the byte; where no style does, no range does.
pub proof fn law_ranges_show_the_last_style(
    ranges: Seq<StyledRange>,
    styles: Seq<StyledRange>,
    p: int,
    i: int,
    j: int,
)
    requires
        flattens(ranges, styles),
        0 <= i < ranges.len(),
        ranges[i].start <= p < ranges[i].end,
    ensures
        top_color(styles, p) == Some(ranges[i].color),
        0 <= j < ranges.len() && ranges[j].start <= p < ranges[j].end ==> j == i,
        i + 1 < ranges.len() && ranges[i].end == ranges[i + 1].start ==> ranges[i].color
            != ranges[i + 1].color,
{
    assert forall|k: int| i < k < ranges.len() implies p < (#[trigger] ranges[k]).start
        || ranges[k].end <= p by {
        assert(ranges[i].end <= ranges[k].start);
    }
    law_later_style_wins(ranges, p, i);
    assert(top_color(ranges, p) == top_color(styles, p));
    if 0 <= j < ranges.len() && ranges[j].start <= p < ranges[j].end {
        if j < i {
            assert(ranges[j].end <= ranges[i].start);
        }
    }
}

} // verus!

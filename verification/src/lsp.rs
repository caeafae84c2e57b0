//! The protocol's data, as plain values.

use vstd::prelude::*;

verus! {

/// A zero-based line and column; the column counts code units of the
/// negotiated encoding.
#[derive(Debug, Clone, Copy, PartialEq, Eq, Structural)]
pub struct Position {
    /// Zero-based line.
    pub line: u32,
    /// Zero-based column in code units.
    pub character: u32,
}

impl Position {
    /// Creates a position.
    pub fn new(line: u32, character: u32) -> (position: Self)
        ensures
            position == (Position { line, character }),
    {
        Position { line, character }
    }
}

/// A half-open range between two positions.
#[derive(Debug, Clone, Copy, PartialEq, Eq, Structural)]
pub struct Range {
    /// Where the range starts.
    pub start: Position,
    /// Where the range ends.
    pub end: Position,
}

impl Range {
    /// The empty range at the start of a document.
    pub open spec fn zero() -> Self {
        Range {
            start: Position { line: 0, character: 0 },
            end: Position { line: 0, character: 0 },
        }
    }
}

impl Default for Range {
    fn default() -> (range: Self)
        ensures
            range == Range::zero(),
    {
        Range {
            start: Position { line: 0, character: 0 },
            end: Position { line: 0, character: 0 },
        }
    }
}

/// A range in a document.
#[derive(Debug, Clone, PartialEq, Eq)]
pub struct Location {
    /// The document.
    pub uri: String,
    /// The range.
    pub range: Range,
}

/// How grave a diagnostic is.
#[derive(Debug, Clone, Copy, PartialEq, Eq, Structural)]
pub enum DiagnosticSeverity {
    /// An error.
    Error,
    /// A warning.
    Warning,
    /// An information.
    Information,
    /// A hint.
    Hint,
}

/// The code of a diagnostic.
#[derive(Debug, Clone, PartialEq, Eq)]
pub enum DiagnosticCode {
    /// A number.
    Number(i32),
    /// A word.
    Text(String),
}

/// What more there is to say of a diagnostic.
#[derive(Debug, Clone, Copy, PartialEq, Eq, Structural)]
pub enum DiagnosticTag {
    /// The code is unused or unnecessary.
    Unnecessary,
    /// The code is deprecated or obsolete.
    Deprecated,
}

/// A place that has to do with a diagnostic.
#[derive(Debug, Clone, PartialEq, Eq)]
pub struct RelatedInformation {
    /// The place.
    pub location: Location,
    /// What it has to do with it.
    pub message: String,
}

/// serde_json's `Value`, handed through as it is.
#[verifier::external_type_specification]
#[verifier::external_body]
pub struct ExJson(serde_json::Value);

/// A diagnostic to publish.
#[derive(Debug, Clone, PartialEq, Eq)]
pub struct Diagnostic {
    /// The range the diagnostic applies to. The zero range stands for "not
    /// given".
    pub range: Range,
    /// How grave it is.
    pub severity: Option<DiagnosticSeverity>,
    /// Its code.
    pub code: Option<DiagnosticCode>,
    /// Where its code is described, as a URI.
    pub code_description: Option<String>,
    /// Where it comes from, e.g. the language's name.
    pub source: Option<String>,
    /// What it says.
    pub message: String,
    /// Places that have to do with it.
    pub related_information: Option<Vec<RelatedInformation>>,
    /// What more there is to say of it.
    pub tags: Option<Vec<DiagnosticTag>>,
    /// What a client is to hand back with a request for code actions.
    pub data: Option<serde_json::Value>,
}

impl Diagnostic {
    /// The diagnostic says nothing but this.
    pub open spec fn plain(range: Range, severity: Option<DiagnosticSeverity>, message: String) -> Self {
        Diagnostic {
            range,
            severity,
            code: None,
            code_description: None,
            source: None,
            message,
            related_information: None,
            tags: None,
            data: None,
        }
    }
}

impl Default for Diagnostic {
    fn default() -> (diagnostic: Self)
        ensures
            diagnostic == Diagnostic::plain(Range::zero(), None, diagnostic.message),
            diagnostic.message@ == Seq::<char>::empty(),
    {
        Diagnostic {
            range: Range::default(),
            severity: None,
            code: None,
            code_description: None,
            source: None,
            message: String::new(),
            related_information: None,
            tags: None,
            data: None,
        }
    }
}

/// What kind of thing a symbol names.
#[derive(Debug, Clone, Copy, PartialEq, Eq, Structural)]
pub enum SymbolKind {
    /// A file.
    File,
    /// A module.
    Module,
    /// A namespace.
    Namespace,
    /// A package.
    Package,
    /// A class.
    Class,
    /// A method.
    Method,
    /// A property.
    Property,
    /// A field.
    Field,
    /// A constructor.
    Constructor,
    /// An enumeration.
    Enum,
    /// An interface.
    Interface,
    /// A function.
    Function,
    /// A variable.
    Variable,
    /// A constant.
    Constant,
    /// A string.
    StringValue,
    /// A number.
    Number,
    /// A boolean.
    Boolean,
    /// An array.
    Array,
    /// An object.
    Object,
    /// A key.
    Key,
    /// A null value.
    Null,
    /// A member of an enumeration.
    EnumMember,
    /// A structure.
    Struct,
    /// An event.
    Event,
    /// An operator.
    Operator,
    /// A type parameter.
    TypeParameter,
}

/// What more there is to say of a symbol.
#[derive(Debug, Clone, Copy, PartialEq, Eq, Structural)]
pub enum SymbolTag {
    /// The symbol is obsolete.
    Deprecated,
}

/// An entry of the outline view.
#[derive(Debug, PartialEq, Eq)]
pub struct DocumentSymbol {
    /// The symbol's name.
    pub name: String,
    /// A detail shown next to the name.
    pub detail: Option<String>,
    /// What the symbol names.
    pub kind: SymbolKind,
    /// The range of the whole symbol.
    pub range: Range,
    /// The range to select when the symbol is picked.
    pub selection_range: Range,
    /// The symbols inside this one, if the outline is nested.
    pub children: Option<Vec<DocumentSymbol>>,
    /// What more there is to say of the symbol.
    pub tags: Option<Vec<SymbolTag>>,
    /// Whether the symbol is deprecated; `tags` say the same.
    pub deprecated: Option<bool>,
}

impl DocumentSymbol {
    /// The two symbols say the same.
    pub open spec fn same_as(self, other: DocumentSymbol) -> bool
        decreases self,
    {
        &&& self.name@ == other.name@
        &&& match (self.detail, other.detail) {
            (Some(detail), Some(its)) => detail@ == its@,
            (None, None) => true,
            _ => false,
        }
        &&& self.kind == other.kind
        &&& self.range == other.range
        &&& self.selection_range == other.selection_range
        &&& match (self.tags, other.tags) {
            (Some(tags), Some(its)) => tags@ == its@,
            (None, None) => true,
            _ => false,
        }
        &&& self.deprecated == other.deprecated
        &&& match (self.children, other.children) {
            (Some(children), Some(its)) => {
                &&& children@.len() == its@.len()
                &&& forall|i: int|
                    0 <= i < children@.len() ==> (#[trigger] children@[i]).same_as(its@[i])
            },
            (None, None) => true,
            _ => false,
        }
    }
}

impl Clone for DocumentSymbol {
    fn clone(&self) -> (symbol: Self)
        ensures
            self.same_as(symbol),
        decreases self,
    {
        let detail = match &self.detail {
            Some(detail) => Some(detail.clone()),
            None => None,
        };
        let children = match &self.children {
            Some(children) => {
                let mut copies: Vec<DocumentSymbol> = Vec::new();
                let mut i: usize = 0;
                while i < children.len()
                    invariant
                        i <= children@.len(),
                        copies@.len() == i,
                        self.children == Some(*children),
                        forall|k: int| 0 <= k < i ==> (#[trigger] children@[k]).same_as(copies@[k]),
                    decreases children.len() - i,
                {
                    assert(decreases_to!(self => self.children->0));
                    assert(decreases_to!((self.children->0)@ => (self.children->0)@[i as int]));
                    copies.push(children[i].clone());
                    i = i + 1;
                }
                Some(copies)
            },
            None => None,
        };
        let tags = match &self.tags {
            Some(tags) => {
                let copy = tags.clone();
                assert(copy@ =~= tags@);
                Some(copy)
            },
            None => None,
        };
        DocumentSymbol {
            name: self.name.clone(),
            detail,
            kind: self.kind,
            range: self.range,
            selection_range: self.selection_range,
            children,
            tags,
            deprecated: self.deprecated,
        }
    }
}

/// A text to show, or code.
#[derive(Debug, Clone, PartialEq, Eq)]
pub enum MarkedString {
    /// Markdown text.
    Text(String),
    /// Code, to be shown as such.
    Code {
        /// The language it is in.
        language: String,
        /// The code.
        value: String,
    },
}

/// How a text is marked up.
#[derive(Debug, Clone, Copy, PartialEq, Eq, Structural)]
pub enum MarkupKind {
    /// Not at all.
    PlainText,
    /// As Markdown.
    Markdown,
}

/// What to show.
#[derive(Debug, Clone, PartialEq, Eq)]
pub enum HoverContents {
    /// One thing.
    Scalar(MarkedString),
    /// Several things.
    Array(Vec<MarkedString>),
    /// A text that is marked up.
    Markup {
        /// How it is marked up.
        kind: MarkupKind,
        /// The text.
        value: String,
    },
}

/// What to show when the pointer rests on a place.
#[derive(Debug, Clone, PartialEq, Eq)]
pub struct Hover {
    /// What to show.
    pub contents: HoverContents,
    /// The range it applies to.
    pub range: Option<Range>,
}

/// One change to a document: `text` replaces `range`, or everything.
#[derive(Debug, Clone, PartialEq, Eq)]
pub struct ContentChange {
    /// The range replaced, or `None` for the whole text.
    pub range: Option<Range>,
    /// The new text.
    pub text: String,
}

/// A copy of a symbol has its name, its detail, its kind, its ranges and its
/// marks, and copies of its children, as many and in order.
pub proof fn law_copied_symbol(symbol: DocumentSymbol, copy: DocumentSymbol)
    requires
        symbol.same_as(copy),
    ensures
        copy.name@ == symbol.name@,
        copy.detail is Some == symbol.detail is Some,
        symbol.detail is Some ==> (copy.detail->0)@ == (symbol.detail->0)@,
        copy.kind == symbol.kind,
        copy.range == symbol.range,
        copy.selection_range == symbol.selection_range,
        copy.deprecated == symbol.deprecated,
        copy.tags is Some == symbol.tags is Some,
        symbol.tags is Some ==> (copy.tags->0)@ == (symbol.tags->0)@,
        copy.children is Some == symbol.children is Some,
        symbol.children is Some ==> (copy.children->0)@.len() == (symbol.children->0)@.len()
            && forall|i: int|
            0 <= i < (symbol.children->0)@.len() ==> (#[trigger] (symbol.children->0)@[i]).same_as(
                (copy.children->0)@[i],
            ),
{
}

} // verus!

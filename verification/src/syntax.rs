//! The top-level statements of a TypeScript module as plain values. Parsing is
//! oxc's; what the analyses read of each statement — its source text, its
//! start offset, and what it declares or imports — is copied out here.
use vstd::prelude::*;

use crate::design_system::after_last_slash;
use crate::strings::starts_with;

use oxc_ast::ast::{BindingPattern, Declaration, Statement};
use oxc_span::{FileExtension, GetSpan};

verus! {

/// What a declaration is, with the names it binds.
#[derive(Debug, Clone)]
pub enum DeclShape {
    /// `let`/`const`/`var`: for each declarator, in order, the name it binds
    /// when its pattern is a plain identifier.
    Variable(Vec<Option<String>>),
    Function(Option<String>),
    Class(Option<String>),
    TypeAlias(String),
    Interface(String),
    Enum(String),
    /// Namespaces, modules, `import x =` and other declaration forms.
    Other,
}

/// What a top-level statement is.
#[derive(Debug, Clone)]
pub enum StatementShape {
    /// A bare declaration (`function f() {}`, `const x = 1`, ...).
    Declaration(DeclShape),
    /// `export <declaration>`.
    Exported(DeclShape),
    /// `export default ...`.
    ExportDefault,
    /// `import ... from "<source>"`, with the source's value.
    Import(String),
    /// Any other statement (expressions, `export { a }`, re-exports, ...).
    Other,
}

/// One top-level statement: byte span, exact source text, and shape.
#[derive(Debug, Clone)]
pub struct TopLevel {
    pub start: u32,
    pub end: u32,
    pub raw: String,
    pub shape: StatementShape,
}

pub enum DeclShapeView {
    Variable(Seq<Option<Seq<char>>>),
    Function(Option<Seq<char>>),
    Class(Option<Seq<char>>),
    TypeAlias(Seq<char>),
    Interface(Seq<char>),
    Enum(Seq<char>),
    Other,
}

pub enum StatementShapeView {
    Declaration(DeclShapeView),
    Exported(DeclShapeView),
    ExportDefault,
    Import(Seq<char>),
    Other,
}

pub struct TopLevelView {
    pub start: u32,
    pub end: u32,
    pub raw: Seq<char>,
    pub shape: StatementShapeView,
}

pub open spec fn opt_view(o: Option<String>) -> Option<Seq<char>> {
    match o {
        Some(s) => Some(s@),
        None => None,
    }
}

impl View for DeclShape {
    type V = DeclShapeView;

    open spec fn view(&self) -> DeclShapeView {
        match self {
            DeclShape::Variable(names) => DeclShapeView::Variable(
                names@.map_values(|n: Option<String>| opt_view(n)),
            ),
            DeclShape::Function(n) => DeclShapeView::Function(opt_view(*n)),
            DeclShape::Class(n) => DeclShapeView::Class(opt_view(*n)),
            DeclShape::TypeAlias(n) => DeclShapeView::TypeAlias(n@),
            DeclShape::Interface(n) => DeclShapeView::Interface(n@),
            DeclShape::Enum(n) => DeclShapeView::Enum(n@),
            DeclShape::Other => DeclShapeView::Other,
        }
    }
}

impl View for StatementShape {
    type V = StatementShapeView;

    open spec fn view(&self) -> StatementShapeView {
        match self {
            StatementShape::Declaration(d) => StatementShapeView::Declaration(d@),
            StatementShape::Exported(d) => StatementShapeView::Exported(d@),
            StatementShape::ExportDefault => StatementShapeView::ExportDefault,
            StatementShape::Import(s) => StatementShapeView::Import(s@),
            StatementShape::Other => StatementShapeView::Other,
        }
    }
}

impl View for TopLevel {
    type V = TopLevelView;

    open spec fn view(&self) -> TopLevelView {
        TopLevelView { start: self.start, end: self.end, raw: self.raw@, shape: self.shape@ }
    }
}

/// The views of a list of top-level statements.
pub open spec fn top_level_views(v: Seq<TopLevel>) -> Seq<TopLevelView> {
    v.map_values(|t: TopLevel| t@)
}

/// How a source is to be parsed: as a TypeScript module, as TSX, or as the
/// extension of its file name says (`declaration` for a `.d.ts`-style name).
#[derive(Debug, Clone, Copy, PartialEq, Eq, Structural)]
pub enum SourceKind {
    TypeScript,
    Tsx,
    Extension { extension: ScriptExtension, declaration: bool },
}

/// The file extensions the parser knows.
#[derive(Debug, Clone, Copy, PartialEq, Eq, Structural)]
pub enum ScriptExtension {
    Js,
    Mjs,
    Cjs,
    Jsx,
    Ts,
    Mts,
    Cts,
    Tsx,
}

/// What oxc's parser makes of `source` parsed as `kind`: `None` when it
/// gives up (panics), else its top-level statements.
pub uninterp spec fn statements_for(kind: SourceKind, source: Seq<char>) -> Option<Seq<TopLevelView>>;

/// The parser's result, in the shape of `statements_for`.
pub open spec fn parsed_as(res: Option<Vec<TopLevel>>) -> Option<Seq<TopLevelView>> {
    match res {
        Some(v) => Some(top_level_views(v@)),
        None => None,
    }
}

/// The kind to parse a file as: the one its name gives, else TSX.
pub fn kind_or_tsx(kind: Option<SourceKind>) -> (res: SourceKind)
    ensures
        res == match kind {
            Some(k) => k,
            None => SourceKind::Tsx,
        },
{
    match kind {
        Some(k) => k,
        None => SourceKind::Tsx,
    }
}

#[verifier::external_type_specification]
#[verifier::external_body]
pub struct ExStatement<'a>(Statement<'a>);

#[verifier::external_type_specification]
#[verifier::external_body]
pub struct ExDeclaration<'a>(Declaration<'a>);

#[verifier::external_type_specification]
#[verifier::external_body]
pub struct ExSourceType(oxc_span::SourceType);

/// Copies a declaration's kind and bound names out of oxc's AST.
#[verifier::external_body]
fn declaration_shape(declaration: &Declaration) -> DeclShape {
    let name = |id: &oxc_ast::ast::BindingIdentifier| id.name.to_string();
    match declaration {
        Declaration::VariableDeclaration(decl) => DeclShape::Variable(decl.declarations.iter().map(
            |d| match &d.id {
                BindingPattern::BindingIdentifier(id) => Some(name(id)),
                _ => None,
            },
        ).collect()),
        Declaration::FunctionDeclaration(func) => DeclShape::Function(func.id.as_ref().map(name)),
        Declaration::ClassDeclaration(class) => DeclShape::Class(class.id.as_ref().map(name)),
        Declaration::TSTypeAliasDeclaration(alias) => DeclShape::TypeAlias(name(&alias.id)),
        Declaration::TSInterfaceDeclaration(interface) => DeclShape::Interface(name(&interface.id)),
        Declaration::TSEnumDeclaration(enum_decl) => DeclShape::Enum(name(&enum_decl.id)),
        _ => DeclShape::Other,
    }
}

/// Copies a top-level statement's span, text and shape out of oxc's AST.
#[verifier::external_body]
fn top_level(source: &str, statement: &Statement) -> TopLevel {
    let span = statement.span();
    let shape = match statement {
        Statement::ExportDefaultDeclaration(_) => StatementShape::ExportDefault,
        Statement::ExportDeclaration(export) => StatementShape::Exported(declaration_shape(&export.declaration)),
        Statement::ImportDeclaration(import) => StatementShape::Import(import.source.value.to_string()),
        _ => statement.as_declaration().map_or(StatementShape::Other, |d| StatementShape::Declaration(declaration_shape(d))),
    };
    let raw = source[span.start as usize..span.end as usize].to_string();
    TopLevel { start: span.start, end: span.end, raw, shape }
}

/// A path that every platform splits alike: `/` is its only separator, and
/// it holds nothing a Windows path prefix is made of (no `:`, no `\\`, no
/// leading `//`).
pub open spec fn portable_path(path: Seq<char>) -> bool {
    !path.contains('\\') && !path.contains(':') && !starts_with(path, "//"@)
}

/// `name` is a file name with the extension `ext` (given with its dot): it
/// ends in `ext`, after at least one other character.
pub open spec fn has_extension(name: Seq<char>, ext: Seq<char>) -> bool {
    name.len() > ext.len() && name.skip(name.len() - ext.len()) == ext
}

/// The kind a portable path's file name gives for the extensions that never
/// name a declaration file (`.tsx`, `.jsx`, `.js`, `.mjs`, `.cjs`).
pub open spec fn script_file_kind(path: Seq<char>) -> Option<SourceKind> {
    let name = after_last_slash(path);
    if !portable_path(path) {
        None
    } else if has_extension(name, ".tsx"@) {
        Some(SourceKind::Extension { extension: ScriptExtension::Tsx, declaration: false })
    } else if has_extension(name, ".jsx"@) {
        Some(SourceKind::Extension { extension: ScriptExtension::Jsx, declaration: false })
    } else if has_extension(name, ".mjs"@) {
        Some(SourceKind::Extension { extension: ScriptExtension::Mjs, declaration: false })
    } else if has_extension(name, ".cjs"@) {
        Some(SourceKind::Extension { extension: ScriptExtension::Cjs, declaration: false })
    } else if has_extension(name, ".js"@) {
        Some(SourceKind::Extension { extension: ScriptExtension::Js, declaration: false })
    } else {
        None
    }
}

/// The kind oxc's `SourceType::from_path` gives a file name: its extension
/// and whether it names a declaration file; `None` when it gives an error.
/// How a path splits into a file name and an extension depends on the
/// platform's path syntax; what is promised is the kind of a portable path
/// whose file name ends in `.tsx`, `.jsx`, `.js`, `.mjs` or `.cjs`
/// (`Path::extension` is the part after the last `.` of a file name that
/// has more than a leading dot, and oxc's `from_path` turns those extensions
/// into non-declaration source types).
#[verifier::external_body]
pub(crate) fn source_kind_of_path(path: &str) -> (res: Option<SourceKind>)
    ensures
        script_file_kind(path@) matches Some(k) ==> res == Some(k),
{
    let st = oxc_span::SourceType::from_path(std::path::Path::new(path)).ok()?;
    let extension = match st.extension()? {
        FileExtension::Js => ScriptExtension::Js,
        FileExtension::Mjs => ScriptExtension::Mjs,
        FileExtension::Cjs => ScriptExtension::Cjs,
        FileExtension::Jsx => ScriptExtension::Jsx,
        FileExtension::Ts => ScriptExtension::Ts,
        FileExtension::Mts => ScriptExtension::Mts,
        FileExtension::Cts => ScriptExtension::Cts,
        FileExtension::Tsx => ScriptExtension::Tsx,
    };
    Some(SourceKind::Extension { extension, declaration: st.is_typescript_definition() })
}

/// oxc's `SourceType` for a kind: `SourceType::ts()`, `SourceType::tsx()`, or
/// what `SourceType::from_path` builds for the extension.
#[verifier::external_body]
fn source_type_of(kind: SourceKind) -> oxc_span::SourceType {
    match kind {
        SourceKind::TypeScript => oxc_span::SourceType::ts(),
        SourceKind::Tsx => oxc_span::SourceType::tsx(),
        SourceKind::Extension { extension, declaration } => oxc_span::SourceType::from(match extension {
            ScriptExtension::Js => FileExtension::Js,
            ScriptExtension::Mjs => FileExtension::Mjs,
            ScriptExtension::Cjs => FileExtension::Cjs,
            ScriptExtension::Jsx => FileExtension::Jsx,
            ScriptExtension::Ts => FileExtension::Ts,
            ScriptExtension::Mts => FileExtension::Mts,
            ScriptExtension::Cts => FileExtension::Cts,
            ScriptExtension::Tsx => FileExtension::Tsx,
        }).with_typescript_definition(declaration),
    }
}

/// Parses `source` with oxc as `kind` (`Parser::parse`): `None` when the
/// parser panicked, else its top-level statements.
#[verifier::external_body]
pub(crate) fn parse_source(kind: SourceKind, source: &str) -> (res: Option<Vec<TopLevel>>)
    ensures
        parsed_as(res) == statements_for(kind, source@),
{
    let allocator = oxc_allocator::Allocator::default();
    let parsed = oxc_parser::Parser::new(&allocator, source, source_type_of(kind)).parse();
    if parsed.panicked {
        return None;
    }
    Some(parsed.program.body.iter().map(|statement| top_level(source, statement)).collect())
}

} // verus!

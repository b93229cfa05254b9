//! Diagnostics: severities, categories, rule metadata, and the located
//! findings every analysis reports.
use vstd::prelude::*;

verus! {

#[derive(Debug, Clone, Copy, PartialEq, Eq, PartialOrd, Ord, Hash, Structural)]
pub enum Severity {
    Error,
    Warn,
    Info,
}

#[derive(Debug, Clone, Copy, PartialEq, Eq, Structural)]
pub enum FileContext {
    Production,
    Test,
}

#[derive(Debug, Clone, Copy, PartialEq, Eq, Hash, Structural)]
pub enum Category {
    Correctness,
    Idiomatic,
    Architecture,
    Performance,
    V4Migration,
    /// `--deep` findings merged from @effect/language-service.
    TypeAware,
    /// `--adopt` (experimental): vanilla TS that should migrate to Effect.
    Adoption,
    /// `--agent` (experimental): non-Effect "slop" patterns LLM agents emit
    /// (if/else chains, ternaries, string-equality guards, raw loops, `let`,
    /// duplicated function bodies) that have a cleaner Effect/functional form.
    AgentHygiene,
    /// Project-level type-checking setup (`tsconfig.json`).
    TypeSafety,
    /// Design-system enforcement.
    DesignSystem,
    /// Findings merged from react-doctor.
    React,
}

/// The human-readable name of a category.
pub open spec fn category_label(c: Category) -> Seq<char> {
    match c {
        Category::Correctness => "Correctness"@,
        Category::Idiomatic => "Idiomatic"@,
        Category::Architecture => "Architecture"@,
        Category::Performance => "Performance"@,
        Category::V4Migration => "v4 Migration"@,
        Category::TypeAware => "Type-aware"@,
        Category::Adoption => "Effect Adoption"@,
        Category::AgentHygiene => "Agent hygiene"@,
        Category::TypeSafety => "Type safety"@,
        Category::DesignSystem => "Design system"@,
        Category::React => "React"@,
    }
}

impl Category {
    pub fn label(self) -> (res: &'static str)
        ensures
            res@ == category_label(self),
    {
        match self {
            Category::Correctness => "Correctness",
            Category::Idiomatic => "Idiomatic",
            Category::Architecture => "Architecture",
            Category::Performance => "Performance",
            Category::V4Migration => "v4 Migration",
            Category::TypeAware => "Type-aware",
            Category::Adoption => "Effect Adoption",
            Category::AgentHygiene => "Agent hygiene",
            Category::TypeSafety => "Type safety",
            Category::DesignSystem => "Design system",
            Category::React => "React",
        }
    }
}

/// Static metadata for a rule, shared by every diagnostic it emits.
#[derive(Debug, Clone, Copy)]
pub struct RuleMeta {
    pub id: &'static str,
    pub severity: Severity,
    pub category: Category,
    pub help: &'static str,
}

/// A byte range of a source file: `start..end`.
#[derive(Debug, Clone, Copy, PartialEq, Eq, Structural)]
pub struct Span {
    pub start: u32,
    pub end: u32,
}

/// Span-based diagnostic emitted while a file's syntax tree is in memory.
/// Converted to a [`Diagnostic`] (line/col + snippet) by the engine.
#[derive(Debug, Clone)]
pub struct RawDiagnostic {
    pub meta: RuleMeta,
    pub span: Span,
    pub message: String,
    /// When set, overrides `meta.severity` for this single finding — used by
    /// the `--agent` family to escalate to `error` under `--agent-strict`.
    pub severity: Option<Severity>,
}

#[derive(Debug, Clone)]
pub struct Diagnostic {
    pub rule: &'static str,
    pub severity: Severity,
    pub category: Category,
    pub message: String,
    pub help: &'static str,
    pub file: String,
    pub file_context: FileContext,
    pub line: u32,
    pub column: u32,
    pub snippet: String,
}

impl Diagnostic {
    /// Build a diagnostic from its rule metadata plus the located fields.
    /// Shared by the cross-file passes so they don't each repeat the
    /// `rule`/`severity`/`category`/`help`-from-meta wiring.
    pub fn from_meta(
        meta: &RuleMeta,
        message: String,
        file: String,
        file_context: FileContext,
        line: u32,
        column: u32,
        snippet: String,
    ) -> (res: Diagnostic)
        ensures
            res.rule == meta.id,
            res.severity == meta.severity,
            res.category == meta.category,
            res.message == message,
            res.help == meta.help,
            res.file == file,
            res.file_context == file_context,
            res.line == line,
            res.column == column,
            res.snippet == snippet,
    {
        Diagnostic {
            rule: meta.id,
            severity: meta.severity,
            category: meta.category,
            message,
            help: meta.help,
            file,
            file_context,
            line,
            column,
            snippet,
        }
    }
}

} // verus!

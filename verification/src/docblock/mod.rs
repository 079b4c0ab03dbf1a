//! PHPDoc comment parsing: tag extraction, type-text scanning and
//! annotation validation.
use vstd::prelude::*;

pub mod scan;
pub mod validate;
pub mod lines;
pub mod method;
pub mod parsed;
pub mod tags;
pub mod phpdoc;
pub mod int_mask;
pub mod syntax;
pub mod type_syntax;
pub mod generic_syntax;
pub mod doc_type;

verus! {

/// Reads a PHPDoc comment into a `ParsedDocblock`.
pub struct DocblockParser;

/// `@property`, `@property-read`, `@property-write`.
#[derive(Debug, Default, Clone)]
pub struct DocProperty {
    pub type_hint: String,
    /// Without the leading `$`.
    pub name: String,
    /// `@property-read`.
    pub read_only: bool,
    /// `@property-write`.
    pub write_only: bool,
}

/// `@method [static] ReturnType name([params])`.
#[derive(Debug, Default, Clone)]
pub struct DocMethod {
    pub return_type: String,
    pub name: String,
    pub is_static: bool,
    pub params: Vec<DocMethodParam>,
}

#[derive(Debug, Default, Clone)]
pub struct DocMethodParam {
    pub name: String,
    pub type_hint: String,
    pub is_variadic: bool,
    pub is_byref: bool,
    pub is_optional: bool,
}

/// `@psalm-type Alias = TypeExpr` / `@phpstan-type Alias = TypeExpr`.
#[derive(Debug, Default, Clone)]
pub struct DocTypeAlias {
    pub name: String,
    pub type_expr: String,
}

/// `@psalm-import-type Alias [as Local] from SourceClass`.
#[derive(Debug, Default, Clone)]
pub struct DocImportType {
    /// The alias name as the source class exports it.
    pub original: String,
    /// The local name to use in this class (`as LocalAlias`); defaults to `original`.
    pub local: String,
    /// The FQCN of the class to import the type from.
    pub from_class: String,
}

} // verus!

//! What a docblock says, tag by tag: the parsed record, its mathematical
//! view, and the effect of every tag on that view.
//!
//! Type annotations are kept as the type text the tag carries (the input of
//! the type-expression parser), already cut out of the tag body, trimmed and
//! validated.
use vstd::prelude::*;
use crate::text::{
    contains_sub, eq_ignore_ascii_case, find_char, find_sub, rfind_sub, trim, trim_start, words,
    ascii_lower, first_where,
};
use super::scan::{split_pieces, strings_view, type_prefix_len, unbalanced};
use super::lines::{
    description_of, import_type_of, param_line, return_type_of, strip_lead, strip_suffix_all,
    template_line,
};
use super::method::{method_line_of, ParamSpec};
use super::validate::{method_body_error, type_str_error};
use super::{DocImportType, DocMethod, DocProperty, DocTypeAlias};

verus! {

/// How a template parameter varies with its container.
#[derive(Debug, Clone, Copy, PartialEq, Eq, Structural)]
pub enum Variance {
    Invariant,
    Covariant,
    Contravariant,
}

/// The type written in a `@psalm-self-out` tag.
#[derive(Debug, Clone)]
pub enum SelfOutType {
    /// `self<..>`, `static<..>`, `parent<..>` or `$this<..>`: the keyword as
    /// written in the list of receivers, and the generic arguments.
    Receiver { keyword: String, params: Vec<String> },
    /// Any other type text.
    Plain(String),
}

/// Everything a docblock states.
#[derive(Debug, Default, Clone)]
pub struct ParsedDocblock {
    /// `@param Type $name`: `(name, type)`.
    pub params: Vec<(String, String)>,
    /// `@param-out Type $name`: `(name, type)`.
    pub out_params: Vec<(String, String)>,
    /// `@return Type`.
    pub return_type: Option<String>,
    /// `@var Type [$name]`.
    pub var_type: Option<String>,
    pub var_name: Option<String>,
    /// `@template T [of Bound] [= Default]`: `(name, bound, variance, default)`.
    pub templates: Vec<(String, Option<String>, Variance, Option<String>)>,
    /// `@extends ClassName<T>`.
    pub extends: Vec<String>,
    /// `@implements InterfaceName<T>`.
    pub implements: Vec<String>,
    /// `@use TraitName<T>`.
    pub uses: Vec<String>,
    /// `@throws ClassName`.
    pub throws: Vec<String>,
    /// `@psalm-assert Type $var`: `(name, type, negated)`.
    pub assertions: Vec<(String, String, bool)>,
    pub assertions_if_true: Vec<(String, String, bool)>,
    pub assertions_if_false: Vec<(String, String, bool)>,
    /// `@psalm-suppress IssueName`.
    pub suppressed_issues: Vec<String>,
    pub is_deprecated: bool,
    pub is_internal: bool,
    pub is_pure: bool,
    pub is_mutation_free: bool,
    pub is_external_mutation_free: bool,
    pub no_named_arguments: bool,
    pub is_immutable: bool,
    pub is_readonly: bool,
    pub is_api: bool,
    pub is_final: bool,
    /// `@inheritDoc` or `{@inheritDoc}`.
    pub is_inherit_doc: bool,
    /// Free text before the first tag.
    pub description: String,
    /// `@deprecated message`: the message, empty when there is none.
    pub deprecated: Option<String>,
    /// `@see` / `@link`.
    pub see: Vec<String>,
    /// `@mixin ClassName`.
    pub mixins: Vec<String>,
    pub properties: Vec<DocProperty>,
    pub methods: Vec<DocMethod>,
    pub type_aliases: Vec<DocTypeAlias>,
    pub import_types: Vec<DocImportType>,
    pub require_extends: Vec<String>,
    pub require_implements: Vec<String>,
    /// `@since X.Y`.
    pub since: Option<String>,
    /// `@removed X.Y`.
    pub removed: Option<String>,
    /// Malformed type annotations found while parsing.
    pub invalid_annotations: Vec<String>,
    /// `@mir-check EXPR is TYPE`: `(expr, type)`.
    pub mir_checks: Vec<(String, String)>,
    /// `@trace $a, $b`.
    pub trace_vars: Vec<String>,
    /// `@taint-sink kind $param`: `(param, kind)`.
    pub taint_sinks: Vec<(String, String)>,
    /// `@seal-properties`.
    pub seal_properties: bool,
    /// `@if-this-is Type`.
    pub if_this_is: Option<String>,
    /// `@psalm-self-out Type`.
    pub self_out: Option<SelfOutType>,
    /// `@dataProvider methodName`.
    pub data_providers: Vec<String>,
}

pub type Text = Seq<char>;

pub type TextPair = (Seq<char>, Seq<char>);

pub type TemplateSpec = (Seq<char>, Option<Seq<char>>, Variance, Option<Seq<char>>);

pub type AssertionSpec = (Seq<char>, Seq<char>, bool);

/// `(type_hint, name, read_only, write_only)`.
pub type PropertySpec = (Seq<char>, Seq<char>, bool, bool);

/// `(return_type, name, is_static, params)`.
pub type MethodSpec = (Seq<char>, Seq<char>, bool, Seq<ParamSpec>);

/// `(is_receiver, keyword or type text, generic arguments)`.
pub type SelfOutSpec = (bool, Seq<char>, Seq<Seq<char>>);

/// The record as plain values.
pub struct DocblockView {
    pub params: Seq<TextPair>,
    pub out_params: Seq<TextPair>,
    pub return_type: Option<Text>,
    pub var_type: Option<Text>,
    pub var_name: Option<Text>,
    pub templates: Seq<TemplateSpec>,
    pub extends: Seq<Text>,
    pub implements: Seq<Text>,
    pub uses: Seq<Text>,
    pub throws: Seq<Text>,
    pub assertions: Seq<AssertionSpec>,
    pub assertions_if_true: Seq<AssertionSpec>,
    pub assertions_if_false: Seq<AssertionSpec>,
    pub suppressed_issues: Seq<Text>,
    pub is_deprecated: bool,
    pub is_internal: bool,
    pub is_pure: bool,
    pub is_mutation_free: bool,
    pub is_external_mutation_free: bool,
    pub no_named_arguments: bool,
    pub is_immutable: bool,
    pub is_readonly: bool,
    pub is_api: bool,
    pub is_final: bool,
    pub is_inherit_doc: bool,
    pub description: Text,
    pub deprecated: Option<Text>,
    pub see: Seq<Text>,
    pub mixins: Seq<Text>,
    pub properties: Seq<PropertySpec>,
    pub methods: Seq<MethodSpec>,
    pub type_aliases: Seq<TextPair>,
    pub import_types: Seq<(Text, Text, Text)>,
    pub require_extends: Seq<Text>,
    pub require_implements: Seq<Text>,
    pub since: Option<Text>,
    pub removed: Option<Text>,
    pub invalid_annotations: Seq<Text>,
    pub mir_checks: Seq<TextPair>,
    pub trace_vars: Seq<Text>,
    pub taint_sinks: Seq<TextPair>,
    pub seal_properties: bool,
    pub if_this_is: Option<Text>,
    pub self_out: Option<SelfOutSpec>,
    pub data_providers: Seq<Text>,
}

pub open spec fn opt_text(o: Option<String>) -> Option<Text> {
    match o {
        Some(s) => Some(s@),
        None => None,
    }
}

pub open spec fn pairs_view(v: Seq<(String, String)>) -> Seq<TextPair> {
    v.map_values(|p: (String, String)| (p.0@, p.1@))
}

pub open spec fn template_view(t: (String, Option<String>, Variance, Option<String>)) -> TemplateSpec {
    (t.0@, opt_text(t.1), t.2, opt_text(t.3))
}

pub open spec fn assertions_view(v: Seq<(String, String, bool)>) -> Seq<AssertionSpec> {
    v.map_values(|a: (String, String, bool)| (a.0@, a.1@, a.2))
}

pub open spec fn property_view(p: DocProperty) -> PropertySpec {
    (p.type_hint@, p.name@, p.read_only, p.write_only)
}

pub open spec fn method_view(m: DocMethod) -> MethodSpec {
    (m.return_type@, m.name@, m.is_static, super::method::params_view(m.params@))
}

pub open spec fn self_out_view(s: SelfOutType) -> SelfOutSpec {
    match s {
        SelfOutType::Receiver { keyword, params } => (true, keyword@, strings_view(params@)),
        SelfOutType::Plain(t) => (false, t@, seq![]),
    }
}

impl ParsedDocblock {
    pub open spec fn view(&self) -> DocblockView {
        DocblockView {
            params: pairs_view(self.params@),
            out_params: pairs_view(self.out_params@),
            return_type: opt_text(self.return_type),
            var_type: opt_text(self.var_type),
            var_name: opt_text(self.var_name),
            templates: self.templates@.map_values(
                |t: (String, Option<String>, Variance, Option<String>)| template_view(t),
            ),
            extends: strings_view(self.extends@),
            implements: strings_view(self.implements@),
            uses: strings_view(self.uses@),
            throws: strings_view(self.throws@),
            assertions: assertions_view(self.assertions@),
            assertions_if_true: assertions_view(self.assertions_if_true@),
            assertions_if_false: assertions_view(self.assertions_if_false@),
            suppressed_issues: strings_view(self.suppressed_issues@),
            is_deprecated: self.is_deprecated,
            is_internal: self.is_internal,
            is_pure: self.is_pure,
            is_mutation_free: self.is_mutation_free,
            is_external_mutation_free: self.is_external_mutation_free,
            no_named_arguments: self.no_named_arguments,
            is_immutable: self.is_immutable,
            is_readonly: self.is_readonly,
            is_api: self.is_api,
            is_final: self.is_final,
            is_inherit_doc: self.is_inherit_doc,
            description: self.description@,
            deprecated: opt_text(self.deprecated),
            see: strings_view(self.see@),
            mixins: strings_view(self.mixins@),
            properties: self.properties@.map_values(|p: DocProperty| property_view(p)),
            methods: self.methods@.map_values(|m: DocMethod| method_view(m)),
            type_aliases: self.type_aliases@.map_values(|a: DocTypeAlias| (a.name@, a.type_expr@)),
            import_types: self.import_types@.map_values(
                |d: DocImportType| (d.original@, d.local@, d.from_class@),
            ),
            require_extends: strings_view(self.require_extends@),
            require_implements: strings_view(self.require_implements@),
            since: opt_text(self.since),
            removed: opt_text(self.removed),
            invalid_annotations: strings_view(self.invalid_annotations@),
            mir_checks: pairs_view(self.mir_checks@),
            trace_vars: strings_view(self.trace_vars@),
            taint_sinks: pairs_view(self.taint_sinks@),
            seal_properties: self.seal_properties,
            if_this_is: opt_text(self.if_this_is),
            self_out: match self.self_out {
                Some(s) => Some(self_out_view(s)),
                None => None,
            },
            data_providers: strings_view(self.data_providers@),
        }
    }
}

/// A record with nothing in it but `description`.
pub open spec fn empty_view(description: Text) -> DocblockView {
    DocblockView {
        params: seq![],
        out_params: seq![],
        return_type: None,
        var_type: None,
        var_name: None,
        templates: seq![],
        extends: seq![],
        implements: seq![],
        uses: seq![],
        throws: seq![],
        assertions: seq![],
        assertions_if_true: seq![],
        assertions_if_false: seq![],
        suppressed_issues: seq![],
        is_deprecated: false,
        is_internal: false,
        is_pure: false,
        is_mutation_free: false,
        is_external_mutation_free: false,
        no_named_arguments: false,
        is_immutable: false,
        is_readonly: false,
        is_api: false,
        is_final: false,
        is_inherit_doc: false,
        description,
        deprecated: None,
        see: seq![],
        mixins: seq![],
        properties: seq![],
        methods: seq![],
        type_aliases: seq![],
        import_types: seq![],
        require_extends: seq![],
        require_implements: seq![],
        since: None,
        removed: None,
        invalid_annotations: seq![],
        mir_checks: seq![],
        trace_vars: seq![],
        taint_sinks: seq![],
        seal_properties: false,
        if_this_is: None,
        self_out: None,
        data_providers: seq![],
    }
}

/// What a tag is, by its name.
#[derive(Debug, Clone, Copy, PartialEq, Eq, Structural)]
pub enum TagKind {
    ParamOut,
    Param,
    Return,
    Var,
    Throws,
    Deprecated,
    Template(Variance),
    Extends,
    Implements,
    Use,
    Assert,
    AssertIfTrue,
    AssertIfFalse,
    IfThisIs,
    SelfOut,
    Suppress,
    See,
    Mixin,
    /// `read_only`, `write_only`, and whether a leading `$` is removed from
    /// the name.
    Property(bool, bool, bool),
    Method,
    TypeAlias,
    ImportType,
    Since,
    Removed,
    Internal,
    Pure,
    SealProperties,
    NoNamedArguments,
    MutationFree,
    ExternalMutationFree,
    Immutable,
    Readonly,
    Final,
    InheritDoc,
    Api,
    RequireExtends,
    RequireImplements,
    MirCheck,
    DataProvider,
    Trace,
    TaintSink,
    Other,
}

pub open spec fn tag_kind_of(n: Text) -> TagKind {
    if n == "param-out"@ || n == "psalm-param-out"@ || n == "phpstan-param-out"@ {
        TagKind::ParamOut
    } else if n == "param"@ || n == "psalm-param"@ || n == "phpstan-param"@ || n == "phan-param"@ {
        TagKind::Param
    } else if n == "return"@ || n == "psalm-return"@ || n == "phpstan-return"@ {
        TagKind::Return
    } else if n == "var"@ || n == "psalm-var"@ || n == "phpstan-var"@ {
        TagKind::Var
    } else if n == "throws"@ {
        TagKind::Throws
    } else if n == "deprecated"@ {
        TagKind::Deprecated
    } else if n == "template"@ || n == "psalm-template"@ || n == "phpstan-template"@ {
        TagKind::Template(Variance::Invariant)
    } else if n == "template-covariant"@ || n == "psalm-template-covariant"@
        || n == "phpstan-template-covariant"@ {
        TagKind::Template(Variance::Covariant)
    } else if n == "template-contravariant"@ || n == "psalm-template-contravariant"@
        || n == "phpstan-template-contravariant"@ {
        TagKind::Template(Variance::Contravariant)
    } else if n == "extends"@ || n == "template-extends"@ || n == "psalm-extends"@
        || n == "phpstan-extends"@ {
        TagKind::Extends
    } else if n == "implements"@ || n == "template-implements"@ || n == "psalm-implements"@
        || n == "phpstan-implements"@ {
        TagKind::Implements
    } else if n == "use"@ || n == "template-use"@ || n == "psalm-use"@ || n == "phpstan-use"@ {
        TagKind::Use
    } else if n == "assert"@ || n == "psalm-assert"@ || n == "phpstan-assert"@ {
        TagKind::Assert
    } else if n == "if-this-is"@ || n == "psalm-if-this-is"@ || n == "phpstan-if-this-is"@ {
        TagKind::IfThisIs
    } else if n == "self-out"@ || n == "psalm-self-out"@ || n == "phpstan-self-out"@
        || n == "this-out"@ || n == "psalm-this-out"@ || n == "phpstan-this-out"@ {
        TagKind::SelfOut
    } else if n == "suppress"@ || n == "psalm-suppress"@ {
        TagKind::Suppress
    } else if n == "see"@ || n == "link"@ {
        TagKind::See
    } else if n == "mixin"@ {
        TagKind::Mixin
    } else if n == "property"@ {
        TagKind::Property(false, false, true)
    } else if n == "property-read"@ {
        TagKind::Property(true, false, true)
    } else if n == "property-write"@ {
        TagKind::Property(false, true, true)
    } else if n == "method"@ || n == "psalm-method"@ {
        TagKind::Method
    } else if n == "psalm-type"@ || n == "phpstan-type"@ {
        TagKind::TypeAlias
    } else if n == "psalm-import-type"@ || n == "phpstan-import-type"@ {
        TagKind::ImportType
    } else if n == "since"@ {
        TagKind::Since
    } else if n == "removed"@ {
        TagKind::Removed
    } else if n == "internal"@ || n == "psalm-internal"@ {
        TagKind::Internal
    } else if n == "pure"@ || n == "psalm-pure"@ || n == "phpstan-pure"@ {
        TagKind::Pure
    } else if n == "seal-properties"@ || n == "psalm-seal-properties"@ {
        TagKind::SealProperties
    } else if n == "no-named-arguments"@ {
        TagKind::NoNamedArguments
    } else if n == "mutation-free"@ || n == "psalm-mutation-free"@ || n == "phpstan-mutation-free"@ {
        TagKind::MutationFree
    } else if n == "psalm-external-mutation-free"@ {
        TagKind::ExternalMutationFree
    } else if n == "immutable"@ || n == "psalm-immutable"@ || n == "phpstan-immutable"@ {
        TagKind::Immutable
    } else if n == "readonly"@ || n == "psalm-readonly"@ || n == "phpstan-readonly"@ {
        TagKind::Readonly
    } else if n == "final"@ {
        TagKind::Final
    } else if n == "inheritDoc"@ || n == "inheritdoc"@ {
        TagKind::InheritDoc
    } else if n == "api"@ || n == "psalm-api"@ {
        TagKind::Api
    } else if n == "psalm-assert-if-true"@ || n == "phpstan-assert-if-true"@ {
        TagKind::AssertIfTrue
    } else if n == "psalm-assert-if-false"@ || n == "phpstan-assert-if-false"@ {
        TagKind::AssertIfFalse
    } else if n == "psalm-property"@ {
        TagKind::Property(false, false, false)
    } else if n == "psalm-property-read"@ {
        TagKind::Property(true, false, false)
    } else if n == "psalm-property-write"@ {
        TagKind::Property(false, true, false)
    } else if n == "psalm-require-extends"@ || n == "phpstan-require-extends"@ {
        TagKind::RequireExtends
    } else if n == "psalm-require-implements"@ || n == "phpstan-require-implements"@ {
        TagKind::RequireImplements
    } else if n == "mir-check"@ {
        TagKind::MirCheck
    } else if n == "dataProvider"@ {
        TagKind::DataProvider
    } else if n == "trace"@ {
        TagKind::Trace
    } else if n == "taint-sink"@ {
        TagKind::TaintSink
    } else {
        TagKind::Other
    }
}

/// Each tag name is read as the tag its name states, and only its aliases
/// (the `psalm-`/`phpstan-`/`phan-` forms and the like) share a kind:
/// `@psalm-assert-if-true` is an if-true assertion, `@psalm-assert-if-false`
/// an if-false one, `@param` a parameter, `@return` a return type, and so
/// on for every tag this reader knows.
pub proof fn lemma_tag_names(n: Text)
    ensures
        (tag_kind_of(n) == TagKind::ParamOut) <==> (n == "param-out"@ || n == "psalm-param-out"@ || n == "phpstan-param-out"@),
        (tag_kind_of(n) == TagKind::Param) <==> (n == "param"@ || n == "psalm-param"@ || n == "phpstan-param"@ || n == "phan-param"@),
        (tag_kind_of(n) == TagKind::Return) <==> (n == "return"@ || n == "psalm-return"@ || n == "phpstan-return"@),
        (tag_kind_of(n) == TagKind::Var) <==> (n == "var"@ || n == "psalm-var"@ || n == "phpstan-var"@),
        (tag_kind_of(n) == TagKind::Throws) <==> (n == "throws"@),
        (tag_kind_of(n) == TagKind::Deprecated) <==> (n == "deprecated"@),
        (tag_kind_of(n) == TagKind::Template(Variance::Invariant)) <==> (n == "template"@ || n == "psalm-template"@ || n == "phpstan-template"@),
        (tag_kind_of(n) == TagKind::Template(Variance::Covariant)) <==> (n == "template-covariant"@ || n == "psalm-template-covariant"@ || n == "phpstan-template-covariant"@),
        (tag_kind_of(n) == TagKind::Template(Variance::Contravariant)) <==> (n == "template-contravariant"@ || n == "psalm-template-contravariant"@ || n == "phpstan-template-contravariant"@),
        (tag_kind_of(n) == TagKind::Extends) <==> (n == "extends"@ || n == "template-extends"@ || n == "psalm-extends"@ || n == "phpstan-extends"@),
        (tag_kind_of(n) == TagKind::Implements) <==> (n == "implements"@ || n == "template-implements"@ || n == "psalm-implements"@ || n == "phpstan-implements"@),
        (tag_kind_of(n) == TagKind::Use) <==> (n == "use"@ || n == "template-use"@ || n == "psalm-use"@ || n == "phpstan-use"@),
        (tag_kind_of(n) == TagKind::Assert) <==> (n == "assert"@ || n == "psalm-assert"@ || n == "phpstan-assert"@),
        (tag_kind_of(n) == TagKind::IfThisIs) <==> (n == "if-this-is"@ || n == "psalm-if-this-is"@ || n == "phpstan-if-this-is"@),
        (tag_kind_of(n) == TagKind::SelfOut) <==> (n == "self-out"@ || n == "psalm-self-out"@ || n == "phpstan-self-out"@ || n == "this-out"@ || n == "psalm-this-out"@ || n == "phpstan-this-out"@),
        (tag_kind_of(n) == TagKind::Suppress) <==> (n == "suppress"@ || n == "psalm-suppress"@),
        (tag_kind_of(n) == TagKind::See) <==> (n == "see"@ || n == "link"@),
        (tag_kind_of(n) == TagKind::Mixin) <==> (n == "mixin"@),
        (tag_kind_of(n) == TagKind::Property(false, false, true)) <==> (n == "property"@),
        (tag_kind_of(n) == TagKind::Property(true, false, true)) <==> (n == "property-read"@),
        (tag_kind_of(n) == TagKind::Property(false, true, true)) <==> (n == "property-write"@),
        (tag_kind_of(n) == TagKind::Method) <==> (n == "method"@ || n == "psalm-method"@),
        (tag_kind_of(n) == TagKind::TypeAlias) <==> (n == "psalm-type"@ || n == "phpstan-type"@),
        (tag_kind_of(n) == TagKind::ImportType) <==> (n == "psalm-import-type"@ || n == "phpstan-import-type"@),
        (tag_kind_of(n) == TagKind::Since) <==> (n == "since"@),
        (tag_kind_of(n) == TagKind::Removed) <==> (n == "removed"@),
        (tag_kind_of(n) == TagKind::Internal) <==> (n == "internal"@ || n == "psalm-internal"@),
        (tag_kind_of(n) == TagKind::Pure) <==> (n == "pure"@ || n == "psalm-pure"@ || n == "phpstan-pure"@),
        (tag_kind_of(n) == TagKind::SealProperties) <==> (n == "seal-properties"@ || n == "psalm-seal-properties"@),
        (tag_kind_of(n) == TagKind::NoNamedArguments) <==> (n == "no-named-arguments"@),
        (tag_kind_of(n) == TagKind::MutationFree) <==> (n == "mutation-free"@ || n == "psalm-mutation-free"@ || n == "phpstan-mutation-free"@),
        (tag_kind_of(n) == TagKind::ExternalMutationFree) <==> (n == "psalm-external-mutation-free"@),
        (tag_kind_of(n) == TagKind::Immutable) <==> (n == "immutable"@ || n == "psalm-immutable"@ || n == "phpstan-immutable"@),
        (tag_kind_of(n) == TagKind::Readonly) <==> (n == "readonly"@ || n == "psalm-readonly"@ || n == "phpstan-readonly"@),
        (tag_kind_of(n) == TagKind::Final) <==> (n == "final"@),
        (tag_kind_of(n) == TagKind::InheritDoc) <==> (n == "inheritDoc"@ || n == "inheritdoc"@),
        (tag_kind_of(n) == TagKind::Api) <==> (n == "api"@ || n == "psalm-api"@),
        (tag_kind_of(n) == TagKind::AssertIfTrue) <==> (n == "psalm-assert-if-true"@ || n == "phpstan-assert-if-true"@),
        (tag_kind_of(n) == TagKind::AssertIfFalse) <==> (n == "psalm-assert-if-false"@ || n == "phpstan-assert-if-false"@),
        (tag_kind_of(n) == TagKind::Property(false, false, false)) <==> (n == "psalm-property"@),
        (tag_kind_of(n) == TagKind::Property(true, false, false)) <==> (n == "psalm-property-read"@),
        (tag_kind_of(n) == TagKind::Property(false, true, false)) <==> (n == "psalm-property-write"@),
        (tag_kind_of(n) == TagKind::RequireExtends) <==> (n == "psalm-require-extends"@ || n == "phpstan-require-extends"@),
        (tag_kind_of(n) == TagKind::RequireImplements) <==> (n == "psalm-require-implements"@ || n == "phpstan-require-implements"@),
        (tag_kind_of(n) == TagKind::MirCheck) <==> (n == "mir-check"@),
        (tag_kind_of(n) == TagKind::DataProvider) <==> (n == "dataProvider"@),
        (tag_kind_of(n) == TagKind::Trace) <==> (n == "trace"@),
        (tag_kind_of(n) == TagKind::TaintSink) <==> (n == "taint-sink"@),
{
    reveal_strlit("param-out");
    assert("param-out"@.len() == 9);
    assert("param-out"@[0] == 'p');
    assert("param-out"@[1] == 'a');
    reveal_strlit("psalm-param-out");
    assert("psalm-param-out"@.len() == 15);
    assert("psalm-param-out"@[0] == 'p');
    assert("psalm-param-out"@[1] == 's');
    assert("psalm-param-out"@[6] == 'p');
    reveal_strlit("phpstan-param-out");
    assert("phpstan-param-out"@.len() == 17);
    assert("phpstan-param-out"@[1] == 'h');
    assert("phpstan-param-out"@[8] == 'p');
    reveal_strlit("param");
    assert("param"@.len() == 5);
    assert("param"@[0] == 'p');
    reveal_strlit("psalm-param");
    assert("psalm-param"@.len() == 11);
    assert("psalm-param"@[1] == 's');
    reveal_strlit("phpstan-param");
    assert("phpstan-param"@.len() == 13);
    assert("phpstan-param"@[0] == 'p');
    assert("phpstan-param"@[1] == 'h');
    reveal_strlit("phan-param");
    assert("phan-param"@.len() == 10);
    assert("phan-param"@[0] == 'p');
    assert("phan-param"@[1] == 'h');
    reveal_strlit("return");
    assert("return"@.len() == 6);
    assert("return"@[0] == 'r');
    reveal_strlit("psalm-return");
    assert("psalm-return"@.len() == 12);
    assert("psalm-return"@[0] == 'p');
    assert("psalm-return"@[1] == 's');
    assert("psalm-return"@[6] == 'r');
    reveal_strlit("phpstan-return");
    assert("phpstan-return"@.len() == 14);
    assert("phpstan-return"@[1] == 'h');
    assert("phpstan-return"@[8] == 'r');
    reveal_strlit("var");
    assert("var"@.len() == 3);
    assert("var"@[0] == 'v');
    reveal_strlit("psalm-var");
    assert("psalm-var"@.len() == 9);
    assert("psalm-var"@[0] == 'p');
    assert("psalm-var"@[1] == 's');
    assert("psalm-var"@[6] == 'v');
    reveal_strlit("phpstan-var");
    assert("phpstan-var"@.len() == 11);
    assert("phpstan-var"@[1] == 'h');
    assert("phpstan-var"@[8] == 'v');
    reveal_strlit("throws");
    assert("throws"@.len() == 6);
    assert("throws"@[0] == 't');
    reveal_strlit("deprecated");
    assert("deprecated"@.len() == 10);
    assert("deprecated"@[0] == 'd');
    reveal_strlit("template");
    assert("template"@.len() == 8);
    assert("template"@[0] == 't');
    assert("template"@[1] == 'e');
    reveal_strlit("psalm-template");
    assert("psalm-template"@.len() == 14);
    assert("psalm-template"@[1] == 's');
    assert("psalm-template"@[6] == 't');
    assert("psalm-template"@[7] == 'e');
    reveal_strlit("phpstan-template");
    assert("phpstan-template"@.len() == 16);
    assert("phpstan-template"@[0] == 'p');
    assert("phpstan-template"@[1] == 'h');
    assert("phpstan-template"@[8] == 't');
    assert("phpstan-template"@[9] == 'e');
    reveal_strlit("template-covariant");
    assert("template-covariant"@.len() == 18);
    assert("template-covariant"@[0] == 't');
    reveal_strlit("psalm-template-covariant");
    assert("psalm-template-covariant"@.len() == 24);
    assert("psalm-template-covariant"@[6] == 't');
    reveal_strlit("phpstan-template-covariant");
    assert("phpstan-template-covariant"@.len() == 26);
    assert("phpstan-template-covariant"@[8] == 't');
    reveal_strlit("template-contravariant");
    assert("template-contravariant"@.len() == 22);
    assert("template-contravariant"@[0] == 't');
    reveal_strlit("psalm-template-contravariant");
    assert("psalm-template-contravariant"@.len() == 28);
    assert("psalm-template-contravariant"@[6] == 't');
    reveal_strlit("phpstan-template-contravariant");
    assert("phpstan-template-contravariant"@.len() == 30);
    reveal_strlit("extends");
    assert("extends"@.len() == 7);
    assert("extends"@[0] == 'e');
    reveal_strlit("template-extends");
    assert("template-extends"@.len() == 16);
    assert("template-extends"@[0] == 't');
    reveal_strlit("psalm-extends");
    assert("psalm-extends"@.len() == 13);
    assert("psalm-extends"@[0] == 'p');
    assert("psalm-extends"@[1] == 's');
    reveal_strlit("phpstan-extends");
    assert("phpstan-extends"@.len() == 15);
    assert("phpstan-extends"@[0] == 'p');
    assert("phpstan-extends"@[1] == 'h');
    reveal_strlit("implements");
    assert("implements"@.len() == 10);
    assert("implements"@[0] == 'i');
    assert("implements"@[1] == 'm');
    reveal_strlit("template-implements");
    assert("template-implements"@.len() == 19);
    assert("template-implements"@[0] == 't');
    reveal_strlit("psalm-implements");
    assert("psalm-implements"@.len() == 16);
    assert("psalm-implements"@[0] == 'p');
    assert("psalm-implements"@[1] == 's');
    assert("psalm-implements"@[7] == 'm');
    reveal_strlit("phpstan-implements");
    assert("phpstan-implements"@.len() == 18);
    assert("phpstan-implements"@[0] == 'p');
    assert("phpstan-implements"@[9] == 'm');
    reveal_strlit("use");
    assert("use"@.len() == 3);
    assert("use"@[0] == 'u');
    reveal_strlit("template-use");
    assert("template-use"@.len() == 12);
    assert("template-use"@[0] == 't');
    reveal_strlit("psalm-use");
    assert("psalm-use"@.len() == 9);
    assert("psalm-use"@[0] == 'p');
    assert("psalm-use"@[1] == 's');
    assert("psalm-use"@[6] == 'u');
    reveal_strlit("phpstan-use");
    assert("phpstan-use"@.len() == 11);
    assert("phpstan-use"@[1] == 'h');
    assert("phpstan-use"@[8] == 'u');
    reveal_strlit("assert");
    assert("assert"@.len() == 6);
    assert("assert"@[0] == 'a');
    reveal_strlit("psalm-assert");
    assert("psalm-assert"@.len() == 12);
    assert("psalm-assert"@[0] == 'p');
    assert("psalm-assert"@[1] == 's');
    assert("psalm-assert"@[6] == 'a');
    reveal_strlit("phpstan-assert");
    assert("phpstan-assert"@.len() == 14);
    assert("phpstan-assert"@[1] == 'h');
    assert("phpstan-assert"@[8] == 'a');
    reveal_strlit("if-this-is");
    assert("if-this-is"@.len() == 10);
    assert("if-this-is"@[0] == 'i');
    assert("if-this-is"@[1] == 'f');
    reveal_strlit("psalm-if-this-is");
    assert("psalm-if-this-is"@.len() == 16);
    assert("psalm-if-this-is"@[0] == 'p');
    assert("psalm-if-this-is"@[1] == 's');
    assert("psalm-if-this-is"@[7] == 'f');
    reveal_strlit("phpstan-if-this-is");
    assert("phpstan-if-this-is"@.len() == 18);
    assert("phpstan-if-this-is"@[0] == 'p');
    assert("phpstan-if-this-is"@[9] == 'f');
    reveal_strlit("self-out");
    assert("self-out"@.len() == 8);
    assert("self-out"@[0] == 's');
    assert("self-out"@[1] == 'e');
    reveal_strlit("psalm-self-out");
    assert("psalm-self-out"@.len() == 14);
    assert("psalm-self-out"@[1] == 's');
    assert("psalm-self-out"@[6] == 's');
    assert("psalm-self-out"@[7] == 'e');
    reveal_strlit("phpstan-self-out");
    assert("phpstan-self-out"@.len() == 16);
    assert("phpstan-self-out"@[0] == 'p');
    assert("phpstan-self-out"@[1] == 'h');
    assert("phpstan-self-out"@[8] == 's');
    reveal_strlit("this-out");
    assert("this-out"@.len() == 8);
    assert("this-out"@[0] == 't');
    assert("this-out"@[1] == 'h');
    reveal_strlit("psalm-this-out");
    assert("psalm-this-out"@.len() == 14);
    assert("psalm-this-out"@[1] == 's');
    assert("psalm-this-out"@[6] == 't');
    assert("psalm-this-out"@[7] == 'h');
    reveal_strlit("phpstan-this-out");
    assert("phpstan-this-out"@.len() == 16);
    assert("phpstan-this-out"@[0] == 'p');
    assert("phpstan-this-out"@[1] == 'h');
    assert("phpstan-this-out"@[8] == 't');
    assert("phpstan-this-out"@[9] == 'h');
    reveal_strlit("suppress");
    assert("suppress"@.len() == 8);
    assert("suppress"@[0] == 's');
    assert("suppress"@[1] == 'u');
    reveal_strlit("psalm-suppress");
    assert("psalm-suppress"@.len() == 14);
    assert("psalm-suppress"@[1] == 's');
    assert("psalm-suppress"@[6] == 's');
    assert("psalm-suppress"@[7] == 'u');
    reveal_strlit("see");
    assert("see"@.len() == 3);
    assert("see"@[0] == 's');
    reveal_strlit("link");
    assert("link"@.len() == 4);
    assert("link"@[0] == 'l');
    reveal_strlit("mixin");
    assert("mixin"@.len() == 5);
    assert("mixin"@[0] == 'm');
    reveal_strlit("property");
    assert("property"@.len() == 8);
    assert("property"@[0] == 'p');
    reveal_strlit("property-read");
    assert("property-read"@.len() == 13);
    assert("property-read"@[0] == 'p');
    assert("property-read"@[1] == 'r');
    reveal_strlit("property-write");
    assert("property-write"@.len() == 14);
    assert("property-write"@[1] == 'r');
    reveal_strlit("method");
    assert("method"@.len() == 6);
    assert("method"@[0] == 'm');
    reveal_strlit("psalm-method");
    assert("psalm-method"@.len() == 12);
    assert("psalm-method"@[0] == 'p');
    assert("psalm-method"@[1] == 's');
    assert("psalm-method"@[6] == 'm');
    reveal_strlit("psalm-type");
    assert("psalm-type"@.len() == 10);
    assert("psalm-type"@[0] == 'p');
    assert("psalm-type"@[1] == 's');
    assert("psalm-type"@[6] == 't');
    reveal_strlit("phpstan-type");
    assert("phpstan-type"@.len() == 12);
    assert("phpstan-type"@[0] == 'p');
    assert("phpstan-type"@[1] == 'h');
    assert("phpstan-type"@[8] == 't');
    reveal_strlit("psalm-import-type");
    assert("psalm-import-type"@.len() == 17);
    assert("psalm-import-type"@[1] == 's');
    reveal_strlit("phpstan-import-type");
    assert("phpstan-import-type"@.len() == 19);
    assert("phpstan-import-type"@[0] == 'p');
    assert("phpstan-import-type"@[1] == 'h');
    reveal_strlit("since");
    assert("since"@.len() == 5);
    assert("since"@[0] == 's');
    reveal_strlit("removed");
    assert("removed"@.len() == 7);
    assert("removed"@[0] == 'r');
    reveal_strlit("internal");
    assert("internal"@.len() == 8);
    assert("internal"@[0] == 'i');
    reveal_strlit("psalm-internal");
    assert("psalm-internal"@.len() == 14);
    assert("psalm-internal"@[1] == 's');
    assert("psalm-internal"@[6] == 'i');
    reveal_strlit("pure");
    assert("pure"@.len() == 4);
    assert("pure"@[0] == 'p');
    reveal_strlit("psalm-pure");
    assert("psalm-pure"@.len() == 10);
    assert("psalm-pure"@[0] == 'p');
    assert("psalm-pure"@[1] == 's');
    assert("psalm-pure"@[6] == 'p');
    reveal_strlit("phpstan-pure");
    assert("phpstan-pure"@.len() == 12);
    assert("phpstan-pure"@[0] == 'p');
    assert("phpstan-pure"@[1] == 'h');
    assert("phpstan-pure"@[8] == 'p');
    reveal_strlit("seal-properties");
    assert("seal-properties"@.len() == 15);
    assert("seal-properties"@[0] == 's');
    reveal_strlit("psalm-seal-properties");
    assert("psalm-seal-properties"@.len() == 21);
    assert("psalm-seal-properties"@[1] == 's');
    assert("psalm-seal-properties"@[6] == 's');
    reveal_strlit("no-named-arguments");
    assert("no-named-arguments"@.len() == 18);
    assert("no-named-arguments"@[0] == 'n');
    reveal_strlit("mutation-free");
    assert("mutation-free"@.len() == 13);
    assert("mutation-free"@[0] == 'm');
    reveal_strlit("psalm-mutation-free");
    assert("psalm-mutation-free"@.len() == 19);
    assert("psalm-mutation-free"@[0] == 'p');
    assert("psalm-mutation-free"@[1] == 's');
    assert("psalm-mutation-free"@[6] == 'm');
    reveal_strlit("phpstan-mutation-free");
    assert("phpstan-mutation-free"@.len() == 21);
    assert("phpstan-mutation-free"@[1] == 'h');
    reveal_strlit("psalm-external-mutation-free");
    assert("psalm-external-mutation-free"@.len() == 28);
    assert("psalm-external-mutation-free"@[6] == 'e');
    reveal_strlit("immutable");
    assert("immutable"@.len() == 9);
    assert("immutable"@[0] == 'i');
    reveal_strlit("psalm-immutable");
    assert("psalm-immutable"@.len() == 15);
    assert("psalm-immutable"@[0] == 'p');
    assert("psalm-immutable"@[1] == 's');
    assert("psalm-immutable"@[6] == 'i');
    reveal_strlit("phpstan-immutable");
    assert("phpstan-immutable"@.len() == 17);
    assert("phpstan-immutable"@[1] == 'h');
    assert("phpstan-immutable"@[8] == 'i');
    reveal_strlit("readonly");
    assert("readonly"@.len() == 8);
    assert("readonly"@[0] == 'r');
    reveal_strlit("psalm-readonly");
    assert("psalm-readonly"@.len() == 14);
    assert("psalm-readonly"@[1] == 's');
    assert("psalm-readonly"@[6] == 'r');
    reveal_strlit("phpstan-readonly");
    assert("phpstan-readonly"@.len() == 16);
    assert("phpstan-readonly"@[0] == 'p');
    assert("phpstan-readonly"@[1] == 'h');
    assert("phpstan-readonly"@[8] == 'r');
    reveal_strlit("final");
    assert("final"@.len() == 5);
    assert("final"@[0] == 'f');
    reveal_strlit("inheritDoc");
    assert("inheritDoc"@.len() == 10);
    assert("inheritDoc"@[0] == 'i');
    assert("inheritDoc"@[1] == 'n');
    assert("inheritDoc"@[7] == 'D');
    reveal_strlit("inheritdoc");
    assert("inheritdoc"@.len() == 10);
    assert("inheritdoc"@[0] == 'i');
    assert("inheritdoc"@[1] == 'n');
    assert("inheritdoc"@[7] == 'd');
    reveal_strlit("api");
    assert("api"@.len() == 3);
    assert("api"@[0] == 'a');
    reveal_strlit("psalm-api");
    assert("psalm-api"@.len() == 9);
    assert("psalm-api"@[0] == 'p');
    assert("psalm-api"@[1] == 's');
    assert("psalm-api"@[6] == 'a');
    reveal_strlit("psalm-assert-if-true");
    assert("psalm-assert-if-true"@.len() == 20);
    assert("psalm-assert-if-true"@[6] == 'a');
    reveal_strlit("phpstan-assert-if-true");
    assert("phpstan-assert-if-true"@.len() == 22);
    assert("phpstan-assert-if-true"@[0] == 'p');
    reveal_strlit("psalm-assert-if-false");
    assert("psalm-assert-if-false"@.len() == 21);
    assert("psalm-assert-if-false"@[1] == 's');
    assert("psalm-assert-if-false"@[6] == 'a');
    reveal_strlit("phpstan-assert-if-false");
    assert("phpstan-assert-if-false"@.len() == 23);
    assert("phpstan-assert-if-false"@[8] == 'a');
    reveal_strlit("psalm-property");
    assert("psalm-property"@.len() == 14);
    assert("psalm-property"@[1] == 's');
    assert("psalm-property"@[6] == 'p');
    reveal_strlit("psalm-property-read");
    assert("psalm-property-read"@.len() == 19);
    assert("psalm-property-read"@[0] == 'p');
    assert("psalm-property-read"@[1] == 's');
    assert("psalm-property-read"@[6] == 'p');
    reveal_strlit("psalm-property-write");
    assert("psalm-property-write"@.len() == 20);
    assert("psalm-property-write"@[6] == 'p');
    reveal_strlit("psalm-require-extends");
    assert("psalm-require-extends"@.len() == 21);
    assert("psalm-require-extends"@[1] == 's');
    assert("psalm-require-extends"@[6] == 'r');
    reveal_strlit("phpstan-require-extends");
    assert("phpstan-require-extends"@.len() == 23);
    assert("phpstan-require-extends"@[8] == 'r');
    reveal_strlit("psalm-require-implements");
    assert("psalm-require-implements"@.len() == 24);
    assert("psalm-require-implements"@[6] == 'r');
    reveal_strlit("phpstan-require-implements");
    assert("phpstan-require-implements"@.len() == 26);
    assert("phpstan-require-implements"@[8] == 'r');
    reveal_strlit("mir-check");
    assert("mir-check"@.len() == 9);
    assert("mir-check"@[0] == 'm');
    reveal_strlit("dataProvider");
    assert("dataProvider"@.len() == 12);
    assert("dataProvider"@[0] == 'd');
    reveal_strlit("trace");
    assert("trace"@.len() == 5);
    assert("trace"@[0] == 't');
    reveal_strlit("taint-sink");
    assert("taint-sink"@.len() == 10);
    assert("taint-sink"@[0] == 't');
}

/// A `@param-out` tag (or an alias) changes only `out_params`, and may note an
/// invalid annotation; every other part of the docblock stays.
pub proof fn lemma_param_out_tag_frame(v: DocblockView, n: Text, body: Option<Text>)
    requires
        n == "param-out"@ || n == "psalm-param-out"@ || n == "phpstan-param-out"@,
    ensures
        apply_tag(v, n, body) == (DocblockView { out_params: apply_tag(v, n, body).out_params, invalid_annotations: apply_tag(v, n, body).invalid_annotations, ..v }),
{
    assert(tag_kind_of(n) is ParamOut) by {
        lemma_tag_names(n);
    }
}

/// A `@param` tag (or an alias) changes only `params`, and may note an
/// invalid annotation; every other part of the docblock stays.
pub proof fn lemma_param_tag_frame(v: DocblockView, n: Text, body: Option<Text>)
    requires
        n == "param"@ || n == "psalm-param"@ || n == "phpstan-param"@ || n == "phan-param"@,
    ensures
        apply_tag(v, n, body) == (DocblockView { params: apply_tag(v, n, body).params, invalid_annotations: apply_tag(v, n, body).invalid_annotations, ..v }),
{
    assert(tag_kind_of(n) is Param) by {
        lemma_tag_names(n);
    }
}

/// A `@return` tag (or an alias) changes only `return_type`, and may note an
/// invalid annotation; every other part of the docblock stays.
#[verifier::spinoff_prover]
#[verifier::rlimit(100)]
pub proof fn lemma_return_tag_frame(v: DocblockView, n: Text, body: Option<Text>)
    requires
        n == "return"@ || n == "psalm-return"@ || n == "phpstan-return"@,
    ensures
        apply_tag(v, n, body) == (DocblockView { return_type: apply_tag(v, n, body).return_type, invalid_annotations: apply_tag(v, n, body).invalid_annotations, ..v }),
{
    assert(tag_kind_of(n) is Return) by {
        lemma_tag_names(n);
    }
}

/// A `@throws` tag (or an alias) changes only `throws`, and may note an
/// invalid annotation; every other part of the docblock stays.
pub proof fn lemma_throws_tag_frame(v: DocblockView, n: Text, body: Option<Text>)
    requires
        n == "throws"@,
    ensures
        apply_tag(v, n, body) == (DocblockView { throws: apply_tag(v, n, body).throws, invalid_annotations: apply_tag(v, n, body).invalid_annotations, ..v }),
{
    assert(tag_kind_of(n) is Throws) by {
        lemma_tag_names(n);
    }
}

/// A `@deprecated` tag (or an alias) changes only `is_deprecated`, `deprecated`, and may note an
/// invalid annotation; every other part of the docblock stays.
pub proof fn lemma_deprecated_tag_frame(v: DocblockView, n: Text, body: Option<Text>)
    requires
        n == "deprecated"@,
    ensures
        apply_tag(v, n, body) == (DocblockView { is_deprecated: apply_tag(v, n, body).is_deprecated, deprecated: apply_tag(v, n, body).deprecated, invalid_annotations: apply_tag(v, n, body).invalid_annotations, ..v }),
{
    assert(tag_kind_of(n) is Deprecated) by {
        lemma_tag_names(n);
    }
}

/// A `@extends` tag (or an alias) changes only `extends`, and may note an
/// invalid annotation; every other part of the docblock stays.
#[verifier::spinoff_prover]
#[verifier::rlimit(100)]
pub proof fn lemma_extends_tag_frame(v: DocblockView, n: Text, body: Option<Text>)
    requires
        n == "extends"@ || n == "template-extends"@ || n == "psalm-extends"@ || n == "phpstan-extends"@,
    ensures
        apply_tag(v, n, body) == (DocblockView { extends: apply_tag(v, n, body).extends, invalid_annotations: apply_tag(v, n, body).invalid_annotations, ..v }),
{
    assert(tag_kind_of(n) is Extends) by {
        lemma_tag_names(n);
    }
}

/// A `@implements` tag (or an alias) changes only `implements`, and may note an
/// invalid annotation; every other part of the docblock stays.
#[verifier::spinoff_prover]
#[verifier::rlimit(100)]
pub proof fn lemma_implements_tag_frame(v: DocblockView, n: Text, body: Option<Text>)
    requires
        n == "implements"@ || n == "template-implements"@ || n == "psalm-implements"@ || n == "phpstan-implements"@,
    ensures
        apply_tag(v, n, body) == (DocblockView { implements: apply_tag(v, n, body).implements, invalid_annotations: apply_tag(v, n, body).invalid_annotations, ..v }),
{
    assert(tag_kind_of(n) is Implements) by {
        lemma_tag_names(n);
    }
}

/// A `@use` tag (or an alias) changes only `uses`, and may note an
/// invalid annotation; every other part of the docblock stays.
#[verifier::spinoff_prover]
#[verifier::rlimit(100)]
pub proof fn lemma_use_tag_frame(v: DocblockView, n: Text, body: Option<Text>)
    requires
        n == "use"@ || n == "template-use"@ || n == "psalm-use"@ || n == "phpstan-use"@,
    ensures
        apply_tag(v, n, body) == (DocblockView { uses: apply_tag(v, n, body).uses, invalid_annotations: apply_tag(v, n, body).invalid_annotations, ..v }),
{
    assert(tag_kind_of(n) is Use) by {
        lemma_tag_names(n);
    }
}

/// A `@if-this-is` tag (or an alias) changes only `if_this_is`, and may note an
/// invalid annotation; every other part of the docblock stays.
pub proof fn lemma_if_this_is_tag_frame(v: DocblockView, n: Text, body: Option<Text>)
    requires
        n == "if-this-is"@ || n == "psalm-if-this-is"@ || n == "phpstan-if-this-is"@,
    ensures
        apply_tag(v, n, body) == (DocblockView { if_this_is: apply_tag(v, n, body).if_this_is, invalid_annotations: apply_tag(v, n, body).invalid_annotations, ..v }),
{
    assert(tag_kind_of(n) is IfThisIs) by {
        lemma_tag_names(n);
    }
}

/// A `@self-out` tag (or an alias) changes only `self_out`, and may note an
/// invalid annotation; every other part of the docblock stays.
pub proof fn lemma_self_out_tag_frame(v: DocblockView, n: Text, body: Option<Text>)
    requires
        n == "self-out"@ || n == "psalm-self-out"@ || n == "phpstan-self-out"@ || n == "this-out"@ || n == "psalm-this-out"@ || n == "phpstan-this-out"@,
    ensures
        apply_tag(v, n, body) == (DocblockView { self_out: apply_tag(v, n, body).self_out, invalid_annotations: apply_tag(v, n, body).invalid_annotations, ..v }),
{
    assert(tag_kind_of(n) is SelfOut) by {
        lemma_tag_names(n);
    }
}

/// A `@suppress` tag (or an alias) changes only `suppressed_issues`, and may note an
/// invalid annotation; every other part of the docblock stays.
pub proof fn lemma_suppress_tag_frame(v: DocblockView, n: Text, body: Option<Text>)
    requires
        n == "suppress"@ || n == "psalm-suppress"@,
    ensures
        apply_tag(v, n, body) == (DocblockView { suppressed_issues: apply_tag(v, n, body).suppressed_issues, invalid_annotations: apply_tag(v, n, body).invalid_annotations, ..v }),
{
    assert(tag_kind_of(n) is Suppress) by {
        lemma_tag_names(n);
    }
}

/// A `@see` tag (or an alias) changes only `see`, and may note an
/// invalid annotation; every other part of the docblock stays.
pub proof fn lemma_see_tag_frame(v: DocblockView, n: Text, body: Option<Text>)
    requires
        n == "see"@ || n == "link"@,
    ensures
        apply_tag(v, n, body) == (DocblockView { see: apply_tag(v, n, body).see, invalid_annotations: apply_tag(v, n, body).invalid_annotations, ..v }),
{
    assert(tag_kind_of(n) is See) by {
        lemma_tag_names(n);
    }
}

/// A `@mixin` tag (or an alias) changes only `mixins`, and may note an
/// invalid annotation; every other part of the docblock stays.
pub proof fn lemma_mixin_tag_frame(v: DocblockView, n: Text, body: Option<Text>)
    requires
        n == "mixin"@,
    ensures
        apply_tag(v, n, body) == (DocblockView { mixins: apply_tag(v, n, body).mixins, invalid_annotations: apply_tag(v, n, body).invalid_annotations, ..v }),
{
    assert(tag_kind_of(n) is Mixin) by {
        lemma_tag_names(n);
    }
}

/// A `@property` tag (or an alias) changes only `properties`, and may note an
/// invalid annotation; every other part of the docblock stays.
pub proof fn lemma_property_tag_frame(v: DocblockView, n: Text, body: Option<Text>)
    requires
        n == "property"@ || n == "property-read"@ || n == "property-write"@ || n == "psalm-property"@ || n == "psalm-property-read"@ || n == "psalm-property-write"@,
    ensures
        apply_tag(v, n, body) == (DocblockView { properties: apply_tag(v, n, body).properties, invalid_annotations: apply_tag(v, n, body).invalid_annotations, ..v }),
{
    assert(tag_kind_of(n) is Property) by {
        lemma_tag_names(n);
    }
}

/// A `@method` tag (or an alias) changes only `methods`, and may note an
/// invalid annotation; every other part of the docblock stays.
pub proof fn lemma_method_tag_frame(v: DocblockView, n: Text, body: Option<Text>)
    requires
        n == "method"@ || n == "psalm-method"@,
    ensures
        apply_tag(v, n, body) == (DocblockView { methods: apply_tag(v, n, body).methods, invalid_annotations: apply_tag(v, n, body).invalid_annotations, ..v }),
{
    assert(tag_kind_of(n) is Method) by {
        lemma_tag_names(n);
    }
}

/// A `@psalm-type` tag (or an alias) changes only `type_aliases`, and may note an
/// invalid annotation; every other part of the docblock stays.
pub proof fn lemma_type_alias_tag_frame(v: DocblockView, n: Text, body: Option<Text>)
    requires
        n == "psalm-type"@ || n == "phpstan-type"@,
    ensures
        apply_tag(v, n, body) == (DocblockView { type_aliases: apply_tag(v, n, body).type_aliases, invalid_annotations: apply_tag(v, n, body).invalid_annotations, ..v }),
{
    assert(tag_kind_of(n) is TypeAlias) by {
        lemma_tag_names(n);
    }
}

/// A `@psalm-import-type` tag (or an alias) changes only `import_types`, and may note an
/// invalid annotation; every other part of the docblock stays.
pub proof fn lemma_import_type_tag_frame(v: DocblockView, n: Text, body: Option<Text>)
    requires
        n == "psalm-import-type"@ || n == "phpstan-import-type"@,
    ensures
        apply_tag(v, n, body) == (DocblockView { import_types: apply_tag(v, n, body).import_types, invalid_annotations: apply_tag(v, n, body).invalid_annotations, ..v }),
{
    assert(tag_kind_of(n) is ImportType) by {
        lemma_tag_names(n);
    }
}

/// A flag tag turns on its own flag and changes nothing else: `@pure`
/// (`@psalm-pure`, `@phpstan-pure`) sets `is_pure`, `@final` sets
/// `is_final`, `@api` sets `is_api`, and so on for each flag tag, whatever
/// its body.
pub proof fn lemma_flag_tags_set_their_own_flag(v: DocblockView, n: Text, body: Option<Text>)
    ensures
        (n == "internal"@ || n == "psalm-internal"@) ==> apply_tag(v, n, body) == (DocblockView { is_internal: true, ..v }),
        (n == "pure"@ || n == "psalm-pure"@ || n == "phpstan-pure"@) ==> apply_tag(v, n, body) == (DocblockView { is_pure: true, ..v }),
        (n == "seal-properties"@ || n == "psalm-seal-properties"@) ==> apply_tag(v, n, body) == (DocblockView { seal_properties: true, ..v }),
        (n == "no-named-arguments"@) ==> apply_tag(v, n, body) == (DocblockView { no_named_arguments: true, ..v }),
        (n == "mutation-free"@ || n == "psalm-mutation-free"@ || n == "phpstan-mutation-free"@) ==> apply_tag(v, n, body) == (DocblockView { is_mutation_free: true, ..v }),
        (n == "psalm-external-mutation-free"@) ==> apply_tag(v, n, body) == (DocblockView { is_external_mutation_free: true, ..v }),
        (n == "immutable"@ || n == "psalm-immutable"@ || n == "phpstan-immutable"@) ==> apply_tag(v, n, body) == (DocblockView { is_immutable: true, ..v }),
        (n == "readonly"@ || n == "psalm-readonly"@ || n == "phpstan-readonly"@) ==> apply_tag(v, n, body) == (DocblockView { is_readonly: true, ..v }),
        (n == "final"@) ==> apply_tag(v, n, body) == (DocblockView { is_final: true, ..v }),
        (n == "inheritDoc"@ || n == "inheritdoc"@) ==> apply_tag(v, n, body) == (DocblockView { is_inherit_doc: true, ..v }),
        (n == "api"@ || n == "psalm-api"@) ==> apply_tag(v, n, body) == (DocblockView { is_api: true, ..v }),
{
    lemma_tag_names(n);
}

/// A `@psalm-assert-if-true` / `@phpstan-assert-if-true` tag adds its
/// assertion (when its body holds one) to `assertions_if_true` and changes
/// nothing else; `-if-false` adds to `assertions_if_false`, and `@assert`
/// (`@psalm-assert`, `@phpstan-assert`) to `assertions`, likewise.
pub proof fn lemma_assert_tags_fill_their_own_list(v: DocblockView, n: Text, body: Option<Text>)
    ensures
        (n == "psalm-assert-if-true"@ || n == "phpstan-assert-if-true"@) ==> apply_tag(v, n, body) == match assertion_entry(body) {
            Some(a) => DocblockView { assertions_if_true: v.assertions_if_true.push(a), ..v },
            None => v,
        },
        (n == "psalm-assert-if-false"@ || n == "phpstan-assert-if-false"@) ==> apply_tag(v, n, body) == match assertion_entry(body) {
            Some(a) => DocblockView { assertions_if_false: v.assertions_if_false.push(a), ..v },
            None => v,
        },
        (n == "assert"@ || n == "psalm-assert"@ || n == "phpstan-assert"@) ==> apply_tag(v, n, body) == match assertion_entry(body) {
            Some(a) => DocblockView { assertions: v.assertions.push(a), ..v },
            None => v,
        },
{
    lemma_tag_names(n);
}

/// `v` with the message, if any, added to `invalid_annotations`.
pub open spec fn note_invalid(v: DocblockView, m: Option<Text>) -> DocblockView {
    match m {
        Some(x) => DocblockView { invalid_annotations: v.invalid_annotations.push(x), ..v },
        None => v,
    }
}

/// The first whitespace-separated word of `b`, empty when there is none.
pub open spec fn first_word(b: Text) -> Text {
    if words(b).len() > 0 {
        words(b)[0]
    } else {
        seq![]
    }
}

/// `s` split at every character of `seps` (`str::split` with a character
/// set): empty pieces included, at least one piece.
pub open spec fn split_at_chars(s: Text, seps: Seq<char>) -> Seq<Text>
    decreases s.len(),
{
    let k = first_where(s.len() as int, |i: int| seps.contains(s[i]), 0);
    if k >= s.len() {
        seq![s]
    } else {
        proof {
            crate::text::lemma_first_where_bounds(s.len() as int, |i: int| seps.contains(s[i]), 0);
        }
        seq![s.take(k)] + split_at_chars(s.skip(k + 1), seps)
    }
}

/// The non-empty members of `ps`, in order.
pub open spec fn keep_nonempty(ps: Seq<Text>) -> Seq<Text>
    decreases ps.len(),
{
    if ps.len() == 0 {
        seq![]
    } else if ps.last().len() > 0 {
        keep_nonempty(ps.drop_last()).push(ps.last())
    } else {
        keep_nonempty(ps.drop_last())
    }
}

pub open spec fn trimmed_all(ps: Seq<Text>) -> Seq<Text> {
    ps.map_values(|p: Text| trim(p))
}

pub open spec fn trace_names(ps: Seq<Text>) -> Seq<Text> {
    ps.map_values(|p: Text| strip_lead(trim(p), '$'))
}

/// The type text of an assertion and whether it is negated (`!Type`).
pub open spec fn assertion_of(s: Text) -> (Text, bool) {
    let t = trim(s);
    if t.len() > 0 && t[0] == '!' {
        (t.drop_first(), true)
    } else {
        (s, false)
    }
}

/// `t` starts with `k` ignoring ASCII case: what follows it.
pub open spec fn strip_ci_prefix(t: Text, k: Text) -> Option<Text> {
    if k.len() <= t.len() && eq_ignore_ascii_case(t.take(k.len() as int), k) {
        Some(t.skip(k.len() as int))
    } else {
        None
    }
}

/// `kw<args>` read from `t`, the keyword matched without regard to ASCII case.
pub open spec fn receiver_args(t: Text, kw: Text) -> Option<Seq<Text>> {
    match strip_ci_prefix(t, kw) {
        None => None,
        Some(rest0) => {
            let rest = trim_start(rest0);
            if rest.len() >= 2 && rest[0] == '<' && rest.last() == '>' {
                Some(split_pieces(rest.subrange(1, rest.len() - 1), ',', false))
            } else {
                None
            }
        },
    }
}

/// The type of a self-out annotation: one of the receiver keywords with
/// generic arguments, else the plain text.
pub open spec fn self_out_of(t: Text) -> SelfOutSpec {
    if receiver_args(t, "self"@) is Some {
        (true, "self"@, receiver_args(t, "self"@)->0)
    } else if receiver_args(t, "static"@) is Some {
        (true, "static"@, receiver_args(t, "static"@)->0)
    } else if receiver_args(t, "parent"@) is Some {
        (true, "parent"@, receiver_args(t, "parent"@)->0)
    } else if receiver_args(t, "$this"@) is Some {
        (true, "$this"@, receiver_args(t, "$this"@)->0)
    } else {
        (false, t, seq![])
    }
}

pub open spec fn with_param_out(v: DocblockView, body: Option<Text>) -> DocblockView {
    match body {
        None => v,
        Some(b) => match param_line(b) {
            None => v,
            Some((t, n)) => match type_str_error(t, "param-out"@) {
                Some(m) => note_invalid(v, Some(m)),
                None => DocblockView { out_params: v.out_params.push((strip_lead(n, '$'), t)), ..v },
            },
        },
    }
}

pub open spec fn with_param(v: DocblockView, body: Option<Text>) -> DocblockView {
    match body {
        None => v,
        Some(b) => match param_line(b) {
            None => note_invalid(v, type_str_error(b, "param"@)),
            Some((t, n)) => if unbalanced(t) {
                note_invalid(v, type_str_error(b, "param"@))
            } else {
                match type_str_error(t, "param"@) {
                    Some(m) => note_invalid(v, Some(m)),
                    None => DocblockView { params: v.params.push((strip_lead(n, '$'), t)), ..v },
                }
            },
        },
    }
}

pub open spec fn with_return(v: DocblockView, body: Option<Text>) -> DocblockView {
    match body {
        None => v,
        Some(b) => {
            let t = return_type_of(b);
            DocblockView { return_type: Some(t), ..note_invalid(v, type_str_error(t, "return"@)) }
        },
    }
}

pub open spec fn with_var(v: DocblockView, body: Option<Text>) -> DocblockView {
    match body {
        None => v,
        Some(b) => match param_line(b) {
            Some((t, n)) => DocblockView {
                var_type: Some(t),
                var_name: Some(strip_lead(n, '$')),
                ..note_invalid(v, type_str_error(t, "var"@))
            },
            None => {
                let tb = trim(b);
                let t = tb.take(type_prefix_len(tb));
                DocblockView { var_type: Some(t), ..note_invalid(v, type_str_error(t, "var"@)) }
            },
        },
    }
}

pub open spec fn with_throws(v: DocblockView, body: Option<Text>) -> DocblockView {
    match body {
        None => v,
        Some(b) => DocblockView {
            throws: v.throws + keep_nonempty(split_at_chars(first_word(b), seq!['|'])),
            ..v
        },
    }
}

pub open spec fn with_deprecated(v: DocblockView, body: Option<Text>) -> DocblockView {
    DocblockView {
        is_deprecated: true,
        deprecated: Some(
            match body {
                Some(b) => b,
                None => seq![],
            },
        ),
        ..v
    }
}

pub open spec fn variance_tag(var: Variance) -> Text {
    match var {
        Variance::Invariant => "template"@,
        Variance::Covariant => "template-covariant"@,
        Variance::Contravariant => "template-contravariant"@,
    }
}

pub open spec fn with_template(v: DocblockView, var: Variance, body: Option<Text>) -> DocblockView {
    match body {
        None => v,
        Some(b) => match template_line(b) {
            None => v,
            Some((n, bound, default)) => {
                let v1 = note_invalid(v, type_str_error(n, variance_tag(var)));
                let v2 = match bound {
                    Some(x) => note_invalid(v1, type_str_error(x, variance_tag(var))),
                    None => v1,
                };
                DocblockView { templates: v2.templates.push((n, bound, var, default)), ..v2 }
            },
        },
    }
}

/// `@extends`, `@implements` and `@use`: the trimmed body, checked as a
/// type under the tag's name.
pub open spec fn with_extends(v: DocblockView, body: Option<Text>) -> DocblockView {
    match body {
        None => v,
        Some(b) => {
            let v1 = note_invalid(v, type_str_error(trim(b), "extends"@));
            DocblockView { extends: v1.extends.push(trim(b)), ..v1 }
        },
    }
}

pub open spec fn with_implements(v: DocblockView, body: Option<Text>) -> DocblockView {
    match body {
        None => v,
        Some(b) => {
            let v1 = note_invalid(v, type_str_error(trim(b), "implements"@));
            DocblockView { implements: v1.implements.push(trim(b)), ..v1 }
        },
    }
}

pub open spec fn with_use(v: DocblockView, body: Option<Text>) -> DocblockView {
    match body {
        None => v,
        Some(b) => {
            let v1 = note_invalid(v, type_str_error(trim(b), "use"@));
            DocblockView { uses: v1.uses.push(trim(b)), ..v1 }
        },
    }
}

/// The assertion of a tag body: `(name, type, negated)`.
pub open spec fn assertion_entry(body: Option<Text>) -> Option<AssertionSpec> {
    match body {
        None => None,
        Some(b) => match param_line(b) {
            None => None,
            Some((t, n)) => Some((n, assertion_of(t).0, assertion_of(t).1)),
        },
    }
}

pub open spec fn with_assert(v: DocblockView, which: int, body: Option<Text>) -> DocblockView {
    match assertion_entry(body) {
        None => v,
        Some(a) => if which == 0 {
            DocblockView { assertions: v.assertions.push(a), ..v }
        } else if which == 1 {
            DocblockView { assertions_if_true: v.assertions_if_true.push(a), ..v }
        } else {
            DocblockView { assertions_if_false: v.assertions_if_false.push(a), ..v }
        },
    }
}

pub open spec fn with_if_this_is(v: DocblockView, body: Option<Text>) -> DocblockView {
    match body {
        Some(b) => if trim(b).len() > 0 {
            DocblockView { if_this_is: Some(trim(b)), ..v }
        } else {
            v
        },
        None => v,
    }
}

pub open spec fn with_self_out(v: DocblockView, body: Option<Text>) -> DocblockView {
    match body {
        Some(b) => if trim(b).len() > 0 {
            DocblockView { self_out: Some(self_out_of(trim(b))), ..v }
        } else {
            v
        },
        None => v,
    }
}

pub open spec fn with_suppress(v: DocblockView, body: Option<Text>) -> DocblockView {
    match body {
        None => v,
        Some(b) => DocblockView {
            suppressed_issues: v.suppressed_issues + keep_nonempty(
                trimmed_all(split_at_chars(b, seq![',', ' '])),
            ),
            ..v
        },
    }
}

pub open spec fn with_see(v: DocblockView, body: Option<Text>) -> DocblockView {
    match body {
        None => v,
        Some(b) => DocblockView { see: v.see.push(b), ..v },
    }
}

pub open spec fn with_mixin(v: DocblockView, body: Option<Text>) -> DocblockView {
    match body {
        None => v,
        Some(b) => DocblockView { mixins: v.mixins.push(b.take(find_char(b, '<') as int)), ..v },
    }
}

pub open spec fn with_property(
    v: DocblockView,
    read_only: bool,
    write_only: bool,
    strip: bool,
    body: Option<Text>,
) -> DocblockView {
    match body {
        None => v,
        Some(b) => match param_line(b) {
            None => v,
            Some((t, n)) => DocblockView {
                properties: v.properties.push(
                    (
                        t,
                        if strip {
                            strip_lead(n, '$')
                        } else {
                            n
                        },
                        read_only,
                        write_only,
                    ),
                ),
                ..v
            },
        },
    }
}

pub open spec fn with_method(v: DocblockView, body: Option<Text>) -> DocblockView {
    let b = trim(
        match body {
            Some(b) => b,
            None => seq![],
        },
    );
    match method_body_error(b) {
        Some(m) => note_invalid(v, Some(m)),
        None => match method_line_of(b) {
            Some(m) => DocblockView { methods: v.methods.push(m), ..v },
            None => v,
        },
    }
}

/// `Name[<T>] = TypeExpr`: `(Name, TypeExpr)`.
pub open spec fn type_alias_of(b: Text) -> Option<TextPair> {
    let k = find_char(b, '=');
    if k < b.len() {
        let raw = trim(b.take(k as int));
        Some((trim(raw.take(find_char(raw, '<') as int)), trim(b.skip(k as int + 1))))
    } else {
        None
    }
}

pub open spec fn with_type_alias(v: DocblockView, body: Option<Text>) -> DocblockView {
    match body {
        None => v,
        Some(b) => match type_alias_of(b) {
            None => v,
            Some(a) => DocblockView { type_aliases: v.type_aliases.push(a), ..v },
        },
    }
}

pub open spec fn with_import_type(v: DocblockView, body: Option<Text>) -> DocblockView {
    match body {
        None => v,
        Some(b) => match import_type_of(b) {
            None => v,
            Some(d) => DocblockView { import_types: v.import_types.push(d), ..v },
        },
    }
}

/// The version named by a `@since`/`@removed` body: its first word.
pub open spec fn version_word(body: Option<Text>) -> Option<Text> {
    match body {
        Some(b) => if first_word(b).len() > 0 {
            Some(first_word(b))
        } else {
            None
        },
        None => None,
    }
}

/// The first word of the body, trimmed, when there is one.
pub open spec fn class_word(body: Option<Text>) -> Option<Text> {
    match body {
        Some(b) => if trim(first_word(b)).len() > 0 {
            Some(trim(first_word(b)))
        } else {
            None
        },
        None => None,
    }
}

/// `EXPR is TYPE`: both sides trimmed, both non-empty.
pub open spec fn mir_check_of(b: Text) -> Option<TextPair> {
    let f = find_sub(b, " is "@);
    if f < b.len() && trim(b.take(f)).len() > 0 && trim(b.skip(f + 4)).len() > 0 {
        Some((trim(b.take(f)), trim(b.skip(f + 4))))
    } else {
        None
    }
}

/// `Class::method()`: the method name.
pub open spec fn provider_of(b: Text) -> Text {
    let t = strip_suffix_all(trim(b), "()"@);
    let r = rfind_sub(t, "::"@);
    trim(
        if r >= 0 {
            t.skip(r + 2)
        } else {
            t
        },
    )
}

/// `kind $a $b`: one `(param, kind)` per parameter.
pub open spec fn taint_entries(b: Text) -> Seq<TextPair> {
    let ws = words(b);
    if ws.len() == 0 {
        seq![]
    } else {
        keep_nonempty(ws.skip(1).map_values(|w: Text| strip_lead(w, '$'))).map_values(
            |p: Text| (p, ws[0]),
        )
    }
}

/// The record with the flag that a flag tag sets turned on.
pub open spec fn set_flag(v: DocblockView, k: TagKind) -> DocblockView {
    match k {
        TagKind::Internal => DocblockView { is_internal: true, ..v },
        TagKind::Pure => DocblockView { is_pure: true, ..v },
        TagKind::SealProperties => DocblockView { seal_properties: true, ..v },
        TagKind::NoNamedArguments => DocblockView { no_named_arguments: true, ..v },
        TagKind::MutationFree => DocblockView { is_mutation_free: true, ..v },
        TagKind::ExternalMutationFree => DocblockView { is_external_mutation_free: true, ..v },
        TagKind::Immutable => DocblockView { is_immutable: true, ..v },
        TagKind::Readonly => DocblockView { is_readonly: true, ..v },
        TagKind::Final => DocblockView { is_final: true, ..v },
        TagKind::InheritDoc => DocblockView { is_inherit_doc: true, ..v },
        TagKind::Api => DocblockView { is_api: true, ..v },
        _ => v,
    }
}

pub open spec fn apply_tag(v: DocblockView, name: Text, body: Option<Text>) -> DocblockView {
    match tag_kind_of(name) {
        TagKind::ParamOut => with_param_out(v, body),
        TagKind::Param => with_param(v, body),
        TagKind::Return => with_return(v, body),
        TagKind::Var => with_var(v, body),
        TagKind::Throws => with_throws(v, body),
        TagKind::Deprecated => with_deprecated(v, body),
        TagKind::Template(var) => with_template(v, var, body),
        TagKind::Extends => with_extends(v, body),
        TagKind::Implements => with_implements(v, body),
        TagKind::Use => with_use(v, body),
        TagKind::Assert => with_assert(v, 0, body),
        TagKind::AssertIfTrue => with_assert(v, 1, body),
        TagKind::AssertIfFalse => with_assert(v, 2, body),
        TagKind::IfThisIs => with_if_this_is(v, body),
        TagKind::SelfOut => with_self_out(v, body),
        TagKind::Suppress => with_suppress(v, body),
        TagKind::See => with_see(v, body),
        TagKind::Mixin => with_mixin(v, body),
        TagKind::Property(ro, wo, strip) => with_property(v, ro, wo, strip, body),
        TagKind::Method => with_method(v, body),
        TagKind::TypeAlias => with_type_alias(v, body),
        TagKind::ImportType => with_import_type(v, body),
        TagKind::Since => if v.since is None {
            DocblockView { since: version_word(body), ..v }
        } else {
            v
        },
        TagKind::Removed => if v.removed is None {
            DocblockView { removed: version_word(body), ..v }
        } else {
            v
        },
        TagKind::Internal => set_flag(v, TagKind::Internal),
        TagKind::Pure => set_flag(v, TagKind::Pure),
        TagKind::SealProperties => set_flag(v, TagKind::SealProperties),
        TagKind::NoNamedArguments => set_flag(v, TagKind::NoNamedArguments),
        TagKind::MutationFree => set_flag(v, TagKind::MutationFree),
        TagKind::ExternalMutationFree => set_flag(v, TagKind::ExternalMutationFree),
        TagKind::Immutable => set_flag(v, TagKind::Immutable),
        TagKind::Readonly => set_flag(v, TagKind::Readonly),
        TagKind::Final => set_flag(v, TagKind::Final),
        TagKind::InheritDoc => set_flag(v, TagKind::InheritDoc),
        TagKind::Api => set_flag(v, TagKind::Api),
        TagKind::RequireExtends => match class_word(body) {
            Some(c) => DocblockView { require_extends: v.require_extends.push(c), ..v },
            None => v,
        },
        TagKind::RequireImplements => match class_word(body) {
            Some(c) => DocblockView { require_implements: v.require_implements.push(c), ..v },
            None => v,
        },
        TagKind::MirCheck => match body {
            Some(b) => match mir_check_of(b) {
                Some(c) => DocblockView { mir_checks: v.mir_checks.push(c), ..v },
                None => v,
            },
            None => v,
        },
        TagKind::DataProvider => match body {
            Some(b) => if provider_of(b).len() > 0 {
                DocblockView { data_providers: v.data_providers.push(provider_of(b)), ..v }
            } else {
                v
            },
            None => v,
        },
        TagKind::Trace => match body {
            Some(b) => DocblockView {
                trace_vars: v.trace_vars + keep_nonempty(
                    trace_names(split_at_chars(b, seq![',', ' '])),
                ),
                ..v
            },
            None => v,
        },
        TagKind::TaintSink => match body {
            Some(b) => DocblockView { taint_sinks: v.taint_sinks + taint_entries(b), ..v },
            None => v,
        },
        TagKind::Other => v,
    }
}

/// The tags applied in order, as `(name, body)`.
pub open spec fn apply_tags(v: DocblockView, tags: Seq<(Text, Option<Text>)>) -> DocblockView
    decreases tags.len(),
{
    if tags.len() == 0 {
        v
    } else {
        apply_tag(apply_tags(v, tags.drop_last()), tags.last().0, tags.last().1)
    }
}

/// `text` mentions `{@inheritDoc}` in any ASCII case.
pub open spec fn mentions_inherit_doc(text: Text) -> bool {
    contains_sub(text.map_values(|c: char| ascii_lower(c)), "{@inheritdoc}"@)
}

/// The record read from a docblock `text` whose tags are `tags`.
pub open spec fn docblock_view(text: Text, tags: Seq<(Text, Option<Text>)>) -> DocblockView {
    let v = apply_tags(empty_view(description_of(text)), tags);
    if mentions_inherit_doc(text) {
        DocblockView { is_inherit_doc: true, ..v }
    } else {
        v
    }
}

/// One tag never replaces a `@since` or `@removed` version already read:
/// the first tag that names one wins.
#[verifier::spinoff_prover]
#[verifier::rlimit(40)]
pub proof fn lemma_apply_tag_keeps_versions(v: DocblockView, name: Text, body: Option<Text>)
    ensures
        v.since is Some ==> apply_tag(v, name, body).since == v.since,
        v.removed is Some ==> apply_tag(v, name, body).removed == v.removed,
{
    match tag_kind_of(name) {
        TagKind::ParamOut => {},
        TagKind::Param => {},
        TagKind::Return => {},
        TagKind::Var => {},
        TagKind::Throws => {},
        TagKind::Deprecated => {},
        TagKind::Template(var) => {},
        TagKind::Extends => {},
        TagKind::Implements => {},
        TagKind::Use => {},
        TagKind::Assert => {},
        TagKind::AssertIfTrue => {},
        TagKind::AssertIfFalse => {},
        TagKind::IfThisIs => {},
        TagKind::SelfOut => {},
        TagKind::Suppress => {},
        TagKind::See => {},
        TagKind::Mixin => {},
        TagKind::Property(ro, wo, strip) => {},
        TagKind::Method => {},
        TagKind::TypeAlias => {},
        TagKind::ImportType => {},
        TagKind::Since => {},
        TagKind::Removed => {},
        TagKind::RequireExtends => {},
        TagKind::RequireImplements => {},
        TagKind::MirCheck => {},
        TagKind::DataProvider => {},
        TagKind::Trace => {},
        TagKind::TaintSink => {},
        TagKind::Other => {},
        _ => {},
    }
}

/// The first `@since` (and `@removed`) that names a version wins: later
/// tags never replace it.
pub proof fn lemma_first_version_wins(v: DocblockView, tags: Seq<(Text, Option<Text>)>)
    ensures
        v.since is Some ==> apply_tags(v, tags).since == v.since,
        v.removed is Some ==> apply_tags(v, tags).removed == v.removed,
    decreases tags.len(),
{
    if tags.len() > 0 {
        lemma_first_version_wins(v, tags.drop_last());
        lemma_apply_tag_keeps_versions(apply_tags(v, tags.drop_last()), tags.last().0, tags.last().1);
    }
}

} // verus!

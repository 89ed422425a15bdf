//! Classifying the argument types of an aggregate.
//!
//! An argument list is written as one type, or as a tuple of types. Each
//! type is either taken as it stands, or, when it is written as an
//! invocation of the `variadic!` macro, as a variadic argument of the type
//! that the macro wraps. There is no type resolution here: a macro counts as
//! the variadic wrapper if its path is exactly `variadic` or exactly
//! `pgx::variadic`, and not otherwise.

use vstd::prelude::*;
use vstd::string::*;
use crate::sql::{sql_name_of, sql_type_name};
use crate::text::{copy_strings, str_eq, texts};

verus! {

/// `syn::Error`, the error of the parser. It is carried as it comes; nothing
/// is said of what it holds.
#[verifier::external_type_specification]
#[verifier::external_body]
pub struct ExSynError(syn::Error);

/// A type as it is written in source text.
#[derive(Debug, Clone)]
pub enum SourceType {
    /// A macro invocation in type position, `path!(tokens)`: the
    /// identifiers of its path, the tokens between its delimiters, and the
    /// text of the whole type.
    Macro { path: Vec<String>, tokens: String, source: String },
    /// Any other type, by its text.
    Plain { source: String },
}

/// What a [`SourceType`] holds, as mathematical values.
pub enum SourceTypeView {
    Macro { path: Seq<Seq<char>>, tokens: Seq<char>, source: Seq<char> },
    Plain { source: Seq<char> },
}

impl View for SourceType {
    type V = SourceTypeView;

    open spec fn view(&self) -> SourceTypeView {
        match self {
            SourceType::Macro { path, tokens, source } => SourceTypeView::Macro {
                path: texts(path@),
                tokens: tokens@,
                source: source@,
            },
            SourceType::Plain { source } => SourceTypeView::Plain { source: source@ },
        }
    }
}

/// The type, or the tuple of types, that declares the arguments of an
/// aggregate.
#[derive(Debug, Clone)]
pub enum TypeExpr {
    /// A tuple type, by its elements.
    Tuple(Vec<SourceType>),
    /// A type that is not a tuple.
    Single(SourceType),
}

/// The views of `types`, in order.
pub open spec fn type_views(types: Seq<SourceType>) -> Seq<SourceTypeView> {
    types.map_values(|t: SourceType| t@)
}

impl TypeExpr {
    /// The types that the expression lists: the elements of a tuple, or the
    /// one type that is not a tuple.
    pub open spec fn elements(&self) -> Seq<SourceTypeView> {
        match self {
            TypeExpr::Tuple(elems) => type_views(elems@),
            TypeExpr::Single(ty) => seq![ty@],
        }
    }
}

/// A type expression that does not parse as a type.
#[derive(Debug)]
pub struct MalformedTypeExpression {
    /// The tokens that were to be parsed.
    pub source: String,
    /// What the parser reported.
    pub cause: syn::Error,
}

/// Whether a macro path names the variadic wrapper: it is `variadic`, or
/// `pgx::variadic`.
pub open spec fn is_variadic_path(path: Seq<Seq<char>>) -> bool {
    ||| path.len() == 1 && path[0] == "variadic"@
    ||| path.len() == 2 && path[0] == "pgx"@ && path[1] == "variadic"@
}

impl SourceTypeView {
    /// The text of the whole type.
    pub open spec fn source(self) -> Seq<char> {
        match self {
            SourceTypeView::Macro { source, .. } => source,
            SourceTypeView::Plain { source } => source,
        }
    }

    /// The tokens that a variadic wrapper wraps, or `None` for a type that
    /// is not an invocation of the variadic wrapper.
    pub open spec fn wrapped_tokens(self) -> Option<Seq<char>> {
        match self {
            SourceTypeView::Macro { path, tokens, .. } => if is_variadic_path(path) {
                Some(tokens)
            } else {
                None
            },
            SourceTypeView::Plain { .. } => None,
        }
    }
}

/// The type that `syn::parse_str::<syn::Type>` reads from `tokens`, or
/// `None` if it reads none. Nothing is stated of it but that it depends on
/// `tokens` alone.
pub uninterp spec fn parsed_type(tokens: Seq<char>) -> Option<SourceTypeView>;

/// Parses `tokens` as a type with `syn::parse_str::<syn::Type>`.
///
/// Trusted: the result is that of the parser, which depends on the text
/// alone. A type that parses comes back by its path identifiers and tokens
/// if it is a macro invocation, and by its printed text in any case; an
/// error comes back as the parser made it.
#[verifier::external_body]
fn parse_type(tokens: &str) -> (r: Result<SourceType, syn::Error>)
    ensures
        match r {
            Ok(ty) => parsed_type(tokens@) == Some(ty@),
            Err(_) => parsed_type(tokens@) is None,
        },
{
    let ty = syn::parse_str::<syn::Type>(tokens)?;
    let source = quote::ToTokens::to_token_stream(&ty).to_string();
    Ok(match ty {
        syn::Type::Macro(m) => SourceType::Macro {
            path: m.mac.path.segments.iter().map(|segment| segment.ident.to_string()).collect(),
            tokens: m.mac.tokens.to_string(),
            source,
        },
        _ => SourceType::Plain { source },
    })
}

/// Whether `path` names the variadic wrapper.
pub fn path_is_variadic(path: &Vec<String>) -> (r: bool)
    ensures
        r == is_variadic_path(texts(path@)),
{
    if path.len() == 1 {
        str_eq(path[0].as_str(), "variadic")
    } else if path.len() == 2 {
        str_eq(path[0].as_str(), "pgx") && str_eq(path[1].as_str(), "variadic")
    } else {
        false
    }
}

impl SourceType {
    /// A copy that holds the same values.
    pub fn duplicate(&self) -> (r: SourceType)
        ensures
            r@ == self@,
    {
        match self {
            SourceType::Macro { path, tokens, source } => SourceType::Macro {
                path: copy_strings(path),
                tokens: tokens.clone(),
                source: source.clone(),
            },
            SourceType::Plain { source } => SourceType::Plain { source: source.clone() },
        }
    }

    /// The text of the whole type.
    pub fn source(&self) -> (r: &String)
        ensures
            r@ == self@.source(),
    {
        match self {
            SourceType::Macro { source, .. } => source,
            SourceType::Plain { source } => source,
        }
    }

    /// The tokens that the variadic wrapper wraps, if the type is an
    /// invocation of it.
    pub fn wrapped_tokens(&self) -> (r: Option<&String>)
        ensures
            match r {
                Some(tokens) => self@.wrapped_tokens() == Some(tokens@),
                None => self@.wrapped_tokens() is None,
            },
    {
        match self {
            SourceType::Macro { path, tokens, .. } => if path_is_variadic(path) {
                Some(tokens)
            } else {
                None
            },
            SourceType::Plain { .. } => None,
        }
    }
}

/// The shape of one argument: a single value of a type, or a variadic
/// argument that repeats values of a type.
#[derive(Debug, Clone)]
pub enum ValueShape {
    /// One value of the type written `ty`.
    Scalar { ty: String },
    /// Any number of values of the type written `ty`. `provenance` is the
    /// text of the macro invocation that the shape was read from; it serves
    /// diagnostics only.
    Variadic { ty: String, provenance: String },
}

/// What a [`ValueShape`] holds, as mathematical values.
pub enum ValueShapeView {
    Scalar { ty: Seq<char> },
    Variadic { ty: Seq<char>, provenance: Seq<char> },
}

impl View for ValueShape {
    type V = ValueShapeView;

    open spec fn view(&self) -> ValueShapeView {
        match self {
            ValueShape::Scalar { ty } => ValueShapeView::Scalar { ty: ty@ },
            ValueShape::Variadic { ty, provenance } => ValueShapeView::Variadic {
                ty: ty@,
                provenance: provenance@,
            },
        }
    }
}

impl ValueShapeView {
    /// The SQL that the shape renders to in an argument list: the SQL name
    /// of its type, after the marker `VARIADIC` for a variadic argument.
    pub open spec fn sql(self) -> Seq<char> {
        match self {
            ValueShapeView::Scalar { ty } => sql_type_name(ty),
            ValueShapeView::Variadic { ty, .. } => "VARIADIC "@ + sql_type_name(ty),
        }
    }
}

/// The views of `shapes`, in order.
pub open spec fn shape_views(shapes: Seq<ValueShape>) -> Seq<ValueShapeView> {
    shapes.map_values(|s: ValueShape| s@)
}

impl ValueShape {
    /// The SQL that the shape renders to in an argument list.
    pub fn to_sql(&self) -> (sql: String)
        ensures
            sql@ == self@.sql(),
    {
        match self {
            ValueShape::Scalar { ty } => sql_name_of(ty.as_str()),
            ValueShape::Variadic { ty, .. } => {
                let mut sql = String::from_str("VARIADIC ");
                sql.append(sql_name_of(ty.as_str()).as_str());
                sql
            },
        }
    }
}

/// A type together with its reading as an aggregate argument.
#[derive(Debug, Clone)]
pub struct MaybeVariadicType {
    /// The type as it was written.
    pub ty: SourceType,
    /// The inner of a variadic, if it exists.
    pub variadic_ty: Option<SourceType>,
}

/// What a [`MaybeVariadicType`] holds, as mathematical values.
pub struct MaybeVariadicTypeView {
    pub ty: SourceTypeView,
    pub variadic_ty: Option<SourceTypeView>,
}

impl View for MaybeVariadicType {
    type V = MaybeVariadicTypeView;

    open spec fn view(&self) -> MaybeVariadicTypeView {
        MaybeVariadicTypeView {
            ty: self.ty@,
            variadic_ty: match self.variadic_ty {
                Some(inner) => Some(inner@),
                None => None,
            },
        }
    }
}

/// The reading of `ty` as an aggregate argument: variadic, of the type that
/// its tokens parse to, for an invocation of the variadic wrapper; the type
/// as it stands for any other type. `None` if `ty` is an invocation of the
/// variadic wrapper whose tokens do not parse as a type.
pub open spec fn classify(ty: SourceTypeView) -> Option<MaybeVariadicTypeView> {
    match ty.wrapped_tokens() {
        Some(tokens) => match parsed_type(tokens) {
            Some(inner) => Some(MaybeVariadicTypeView { ty, variadic_ty: Some(inner) }),
            None => None,
        },
        None => Some(MaybeVariadicTypeView { ty, variadic_ty: None }),
    }
}

impl MaybeVariadicTypeView {
    /// The shape of the argument: variadic of the wrapped type if there is
    /// one, else a single value of the type itself. Each type is given by
    /// its text.
    pub open spec fn shape(self) -> ValueShapeView {
        match self.variadic_ty {
            Some(inner) => ValueShapeView::Variadic {
                ty: inner.source(),
                provenance: self.ty.source(),
            },
            None => ValueShapeView::Scalar { ty: self.ty.source() },
        }
    }
}

/// The shape that `ty` has as an aggregate argument, if it can be read as
/// one.
pub open spec fn classified_shape(ty: SourceTypeView) -> Option<ValueShapeView> {
    match classify(ty) {
        Some(found) => Some(found.shape()),
        None => None,
    }
}

/// A macro invocation whose path is exactly `variadic` or exactly
/// `pgx::variadic` has the shape of a variadic argument of the type that
/// its tokens parse to, and no shape if they parse to none. A macro
/// invocation with any other path has the shape of a single value of its
/// own type.
pub proof fn lemma_variadic_detection(path: Seq<Seq<char>>, tokens: Seq<char>, source: Seq<char>)
    ensures
        ({
            let ty = SourceTypeView::Macro { path, tokens, source };
            if path == seq!["variadic"@] || path == seq!["pgx"@, "variadic"@] {
                match parsed_type(tokens) {
                    Some(inner) => classified_shape(ty) == Some(
                        ValueShapeView::Variadic { ty: inner.source(), provenance: source },
                    ),
                    None => classified_shape(ty) is None,
                }
            } else {
                classified_shape(ty) == Some(ValueShapeView::Scalar { ty: source })
            }
        }),
{
    if is_variadic_path(path) {
        if path.len() == 1 {
            assert(path =~= seq!["variadic"@]);
        } else {
            assert(path =~= seq!["pgx"@, "variadic"@]);
        }
    }
}

impl MaybeVariadicType {
    /// The reading of `ty`, an invocation of the variadic wrapper, once its
    /// tokens have been parsed: variadic of the parsed type, or the
    /// parser's error together with the tokens.
    pub fn unwrapped(ty: SourceType, tokens: &String, parsed: Result<SourceType, syn::Error>) -> (r:
        Result<MaybeVariadicType, MalformedTypeExpression>)
        ensures
            match parsed {
                Ok(inner) => r matches Ok(found) && found@ == (MaybeVariadicTypeView {
                    ty: ty@,
                    variadic_ty: Some(inner@),
                }),
                Err(cause) => r matches Err(e) && e.source@ == tokens@ && e.cause == cause,
            },
    {
        match parsed {
            Ok(inner) => Ok(MaybeVariadicType { ty, variadic_ty: Some(inner) }),
            Err(cause) => Err(MalformedTypeExpression { source: tokens.clone(), cause }),
        }
    }

    /// Read `ty` as an aggregate argument.
    ///
    /// An invocation of the variadic wrapper gives a variadic argument of
    /// the type that its tokens parse to, and fails if they do not parse as
    /// a type. Any other type, macro invocations with another path among
    /// them, gives an argument of that type.
    pub fn new(ty: SourceType) -> (r: Result<MaybeVariadicType, MalformedTypeExpression>)
        ensures
            match r {
                Ok(found) => classify(ty@) == Some(found@),
                Err(e) => classify(ty@) is None && ty@.wrapped_tokens() == Some(e.source@),
            },
    {
        let tokens = match ty.wrapped_tokens() {
            Some(tokens) => tokens.clone(),
            None => {
                return Ok(MaybeVariadicType { ty, variadic_ty: None });
            },
        };
        let parsed = parse_type(tokens.as_str());
        MaybeVariadicType::unwrapped(ty, &tokens, parsed)
    }

    /// The shape of the argument.
    pub fn shape(&self) -> (r: ValueShape)
        ensures
            r@ == self@.shape(),
    {
        match &self.variadic_ty {
            Some(inner) => ValueShape::Variadic {
                ty: inner.source().clone(),
                provenance: self.ty.source().clone(),
            },
            None => ValueShape::Scalar { ty: self.ty.source().clone() },
        }
    }
}

/// The arguments of an aggregate, read from the type that declares them.
#[derive(Debug, Clone)]
pub struct MaybeVariadicTypeList {
    /// The arguments, in the order in which the type lists them.
    pub found: Vec<MaybeVariadicType>,
    /// The type that declares them.
    pub original: TypeExpr,
}

/// The views of `found`, in order.
pub open spec fn found_views(found: Seq<MaybeVariadicType>) -> Seq<MaybeVariadicTypeView> {
    found.map_values(|t: MaybeVariadicType| t@)
}

/// Whether `found` holds the reading of each type of `types`, in order.
pub open spec fn is_classification(
    types: Seq<SourceTypeView>,
    found: Seq<MaybeVariadicTypeView>,
) -> bool {
    &&& found.len() == types.len()
    &&& forall|i: int| 0 <= i < types.len() ==> classify(#[trigger] types[i]) == Some(found[i])
}

/// Whether `i` is the first position of `types` that holds a type without
/// a reading.
pub open spec fn is_first_malformed(types: Seq<SourceTypeView>, i: int) -> bool {
    &&& 0 <= i < types.len()
    &&& classify(types[i]) is None
    &&& forall|j: int| 0 <= j < i ==> classify(#[trigger] types[j]) is Some
}

impl MaybeVariadicTypeList {
    /// Read the arguments that `maybe_type_list` declares.
    ///
    /// A tuple of N types gives N arguments, in the order of the tuple; any
    /// other type gives one argument. Fails on the first type that is an
    /// invocation of the variadic wrapper around tokens that do not parse
    /// as a type.
    pub fn new(maybe_type_list: TypeExpr) -> (r: Result<
        MaybeVariadicTypeList,
        MalformedTypeExpression,
    >)
        ensures
            match r {
                Ok(list) => list.original == maybe_type_list && is_classification(
                    maybe_type_list.elements(),
                    found_views(list.found@),
                ),
                Err(e) => exists|i: int|
                    #[trigger] is_first_malformed(maybe_type_list.elements(), i)
                        && maybe_type_list.elements()[i].wrapped_tokens() == Some(e.source@),
            },
    {
        let mut found: Vec<MaybeVariadicType> = Vec::new();
        let ghost types = maybe_type_list.elements();
        match &maybe_type_list {
            TypeExpr::Tuple(elems) => {
                let mut i: usize = 0;
                while i < elems.len()
                    invariant
                        i <= elems.len(),
                        types == type_views(elems@),
                        types == maybe_type_list.elements(),
                        found.len() == i,
                        forall|k: int| 0 <= k < i ==> classify(#[trigger] types[k]) == Some(found@[k]@),
                    decreases elems.len() - i,
                {
                    assert(types[i as int] == elems@[i as int]@);
                    match MaybeVariadicType::new(elems[i].duplicate()) {
                        Ok(parsed_elem) => {
                            found.push(parsed_elem);
                        },
                        Err(e) => {
                            assert(is_first_malformed(types, i as int));
                            assert(types[i as int].wrapped_tokens() == Some(e.source@));
                            return Err(e);
                        },
                    }
                    i += 1;
                }
            },
            TypeExpr::Single(ty) => {
                match MaybeVariadicType::new(ty.duplicate()) {
                    Ok(parsed) => {
                        found.push(parsed);
                    },
                    Err(e) => {
                        assert(is_first_malformed(types, 0));
                        assert(types[0].wrapped_tokens() == Some(e.source@));
                        return Err(e);
                    },
                }
            },
        }
        Ok(MaybeVariadicTypeList { found, original: maybe_type_list })
    }

    /// The shapes of the arguments, in order.
    pub fn shapes(&self) -> (r: Vec<ValueShape>)
        ensures
            r.len() == self.found.len(),
            forall|i: int| 0 <= i < r.len() ==> (#[trigger] r[i])@ == self.found[i]@.shape(),
    {
        let mut r: Vec<ValueShape> = Vec::new();
        let mut i: usize = 0;
        while i < self.found.len()
            invariant
                i <= self.found.len(),
                r.len() == i,
                forall|k: int| 0 <= k < i ==> (#[trigger] r[k])@ == self.found[k]@.shape(),
            decreases self.found.len() - i,
        {
            r.push(self.found[i].shape());
            i += 1;
        }
        r
    }
}

} // verus!

//! Aggregates: what a definition declares, the descriptor that is built
//! from it, and the `CREATE AGGREGATE` statement that the descriptor
//! renders to.
//!
//! An aggregate supplies up to seven operations, each as a function known
//! to the database by name: the state transition, which every aggregate
//! has; finalize, combine, serialize and deserialize, which it may have;
//! and, for use in a moving window, the moving state transition and the
//! moving finalize.

use vstd::prelude::*;
use vstd::string::*;
use crate::maybe_variadic_type::{
    classified_shape,
    is_first_malformed,
    MalformedTypeExpression,
    MaybeVariadicTypeList,
    shape_views,
    SourceTypeView,
    TypeExpr,
    ValueShape,
    ValueShapeView,
};
use crate::sql::{
    join,
    join_strings,
    option_text,
    push_optional_setting,
    push_setting,
    quote,
    quoted,
    sql_name_of,
    sql_type_name,
    with_setting,
};
use crate::text::texts;

verus! {

/// Whether an aggregate may run in parallel.
#[derive(Copy, Clone, Debug, PartialEq, Eq, Structural)]
pub enum ParallelOption {
    Safe,
    Restricted,
    Unsafe,
    /// Nothing is declared; the database applies its default.
    Unspecified,
}

/// What a finalize function may do to the state that it is given.
#[derive(Copy, Clone, Debug, PartialEq, Eq, Structural)]
pub enum FinalizeModify {
    ReadOnly,
    Shareable,
    ReadWrite,
    /// Nothing is declared; the database applies its default.
    Unspecified,
}

impl ParallelOption {
    /// The SQL keyword of the option, or `None` where nothing is declared.
    pub open spec fn sql(self) -> Option<Seq<char>> {
        match self {
            ParallelOption::Safe => Some("SAFE"@),
            ParallelOption::Restricted => Some("RESTRICTED"@),
            ParallelOption::Unsafe => Some("UNSAFE"@),
            ParallelOption::Unspecified => None,
        }
    }

    /// The SQL keyword of the option, or `None` where nothing is declared.
    pub fn to_sql(&self) -> (r: Option<String>)
        ensures
            option_text(r) == self.sql(),
    {
        match self {
            ParallelOption::Safe => Some(String::from_str("SAFE")),
            ParallelOption::Restricted => Some(String::from_str("RESTRICTED")),
            ParallelOption::Unsafe => Some(String::from_str("UNSAFE")),
            ParallelOption::Unspecified => None,
        }
    }
}

impl FinalizeModify {
    /// The SQL keyword of the mode, or `None` where nothing is declared.
    pub open spec fn sql(self) -> Option<Seq<char>> {
        match self {
            FinalizeModify::ReadOnly => Some("READ_ONLY"@),
            FinalizeModify::Shareable => Some("SHAREABLE"@),
            FinalizeModify::ReadWrite => Some("READ_WRITE"@),
            FinalizeModify::Unspecified => None,
        }
    }

    /// The SQL keyword of the mode, or `None` where nothing is declared.
    pub fn to_sql(&self) -> (r: Option<String>)
        ensures
            option_text(r) == self.sql(),
    {
        match self {
            FinalizeModify::ReadOnly => Some(String::from_str("READ_ONLY")),
            FinalizeModify::Shareable => Some(String::from_str("SHAREABLE")),
            FinalizeModify::ReadWrite => Some(String::from_str("READ_WRITE")),
            FinalizeModify::Unspecified => None,
        }
    }
}

/// What the definition of an aggregate declares. Every `Option` is `None`
/// where the definition says nothing.
#[derive(Debug, Clone)]
pub struct AggregateDeclaration {
    /// The SQL name of the aggregate.
    pub name: String,
    /// The type, or the tuple of types, of the arguments.
    pub args: TypeExpr,
    /// The type of the state.
    pub state_type: String,
    /// The type of the result, where it differs from the state.
    pub finalize_type: Option<String>,
    /// The type of the ordering argument of an ordered-set aggregate.
    pub order_by_type: Option<String>,
    /// The type of the state in a moving window.
    pub moving_state_type: Option<String>,
    pub parallel: Option<ParallelOption>,
    pub finalize_modify: Option<FinalizeModify>,
    pub moving_finalize_modify: Option<FinalizeModify>,
    pub initial_condition: Option<String>,
    pub moving_initial_condition: Option<String>,
    pub sort_operator: Option<String>,
    pub hypothetical: Option<bool>,
    /// The function that takes the state and one input to the next state.
    pub state_fn: String,
    /// The function that takes the state to the result.
    pub finalize_fn: Option<String>,
    /// The function that merges two states.
    pub combine_fn: Option<String>,
    /// The function that writes the state as bytes.
    pub serial_fn: Option<String>,
    /// The function that reads the state from bytes.
    pub deserial_fn: Option<String>,
    /// The function that takes the moving state and one input, entering
    /// or leaving the window, to the next moving state.
    pub moving_state_fn: Option<String>,
    /// The function that takes the moving state to the result.
    pub moving_finalize_fn: Option<String>,
}

/// An aggregate, ready to be rendered.
///
/// The parts that serve a moving window come together or not at all:
/// `moving_state_type`, `moving_state_fn`, `moving_finalize_fn` and
/// `moving_initial_condition` are all present or all absent, and
/// `moving_finalize_modify` is specified only where they are present.
#[derive(Debug, Clone)]
pub struct AggregateDescriptor {
    pub name: String,
    pub argument_shapes: Vec<ValueShape>,
    pub state_type: String,
    pub finalize_type: Option<String>,
    pub order_by_type: Option<String>,
    pub moving_state_type: Option<String>,
    pub parallel_safety: ParallelOption,
    pub finalize_modify: FinalizeModify,
    pub moving_finalize_modify: FinalizeModify,
    pub initial_condition: Option<String>,
    pub moving_initial_condition: Option<String>,
    pub sort_operator: Option<String>,
    pub hypothetical: bool,
    pub state_fn: String,
    pub finalize_fn: Option<String>,
    pub combine_fn: Option<String>,
    pub serial_fn: Option<String>,
    pub deserial_fn: Option<String>,
    pub moving_state_fn: Option<String>,
    pub moving_finalize_fn: Option<String>,
}

/// Why no descriptor can be built from a declaration.
#[derive(Debug)]
pub enum AggregateError {
    /// A type among the arguments is a variadic wrapper around tokens that
    /// do not parse as a type.
    MalformedTypeExpression(MalformedTypeExpression),
    /// The parts that serve a moving window do not come together; `field`
    /// names the first part that is out of line.
    InvalidAggregateDescriptor { field: &'static str },
}

/// `value`, or `default` where there is none.
pub open spec fn value_or<T>(value: Option<T>, default: T) -> T {
    match value {
        Some(v) => v,
        None => default,
    }
}

/// `text` between single quotes, if there is a text.
pub open spec fn quoted_option(text: Option<String>) -> Option<Seq<char>> {
    match text {
        Some(t) => Some(quoted(t@)),
        None => None,
    }
}

/// The SQL name of the type written `source`, if there is a type.
pub open spec fn sql_type_option(source: Option<String>) -> Option<Seq<char>> {
    match source {
        Some(s) => Some(sql_type_name(s@)),
        None => None,
    }
}

/// The SQL of each shape, in order.
pub open spec fn shapes_sql(shapes: Seq<ValueShapeView>) -> Seq<Seq<char>> {
    shapes.map_values(|s: ValueShapeView| s.sql())
}

/// Whether `shapes` holds the shape of each type of `types`, in order.
pub open spec fn is_shape_list(types: Seq<SourceTypeView>, shapes: Seq<ValueShapeView>) -> bool {
    &&& shapes.len() == types.len()
    &&& forall|i: int|
        0 <= i < types.len() ==> classified_shape(#[trigger] types[i]) == Some(shapes[i])
}

impl AggregateDeclaration {
    /// The first part of the moving-window machinery that is out of line
    /// with `moving_state_type`, by the name of its field: of
    /// `moving_state_fn`, `moving_finalize_fn` and
    /// `moving_initial_condition`, one that is present without a moving
    /// state or absent with one; then `moving_finalize_modify`, if a mode
    /// is specified without a moving state. `None` if all are in line.
    pub open spec fn inconsistent_field(&self) -> Option<Seq<char>> {
        let moving = self.moving_state_type is Some;
        if (self.moving_state_fn is Some) != moving {
            Some("moving_state_fn"@)
        } else if (self.moving_finalize_fn is Some) != moving {
            Some("moving_finalize_fn"@)
        } else if (self.moving_initial_condition is Some) != moving {
            Some("moving_initial_condition"@)
        } else if !moving && value_or(self.moving_finalize_modify, FinalizeModify::Unspecified)
            != FinalizeModify::Unspecified {
            Some("moving_finalize_modify"@)
        } else {
            None
        }
    }
}

impl AggregateDescriptor {
    /// Whether the descriptor holds what `declaration` declares, with the
    /// default for each setting that it leaves open: nothing specified for
    /// the parallel option and the two finalize modes, and not
    /// hypothetical.
    pub open spec fn describes(&self, declaration: AggregateDeclaration) -> bool {
        &&& self.name == declaration.name
        &&& is_shape_list(declaration.args.elements(), shape_views(self.argument_shapes@))
        &&& self.state_type == declaration.state_type
        &&& self.finalize_type == declaration.finalize_type
        &&& self.order_by_type == declaration.order_by_type
        &&& self.moving_state_type == declaration.moving_state_type
        &&& self.parallel_safety == value_or(declaration.parallel, ParallelOption::Unspecified)
        &&& self.finalize_modify == value_or(
            declaration.finalize_modify,
            FinalizeModify::Unspecified,
        )
        &&& self.moving_finalize_modify == value_or(
            declaration.moving_finalize_modify,
            FinalizeModify::Unspecified,
        )
        &&& self.initial_condition == declaration.initial_condition
        &&& self.moving_initial_condition == declaration.moving_initial_condition
        &&& self.sort_operator == declaration.sort_operator
        &&& self.hypothetical == value_or(declaration.hypothetical, false)
        &&& self.state_fn == declaration.state_fn
        &&& self.finalize_fn == declaration.finalize_fn
        &&& self.combine_fn == declaration.combine_fn
        &&& self.serial_fn == declaration.serial_fn
        &&& self.deserial_fn == declaration.deserial_fn
        &&& self.moving_state_fn == declaration.moving_state_fn
        &&& self.moving_finalize_fn == declaration.moving_finalize_fn
    }

    /// Whether the parts that serve a moving window come together or not
    /// at all.
    pub open spec fn moving_parts_consistent(&self) -> bool {
        let moving = self.moving_state_type is Some;
        &&& (self.moving_state_fn is Some) == moving
        &&& (self.moving_finalize_fn is Some) == moving
        &&& (self.moving_initial_condition is Some) == moving
        &&& !moving ==> self.moving_finalize_modify == FinalizeModify::Unspecified
    }

    /// Build the descriptor of the aggregate that `declaration` declares.
    ///
    /// Fails with `MalformedTypeExpression` for the first argument type
    /// that cannot be read, and else with `InvalidAggregateDescriptor` if
    /// the parts that serve a moving window do not come together.
    pub fn build(declaration: AggregateDeclaration) -> (r: Result<AggregateDescriptor, AggregateError>)
        ensures
            match r {
                Ok(descriptor) => descriptor.describes(declaration)
                    && declaration.inconsistent_field() is None
                    && descriptor.moving_parts_consistent(),
                Err(AggregateError::MalformedTypeExpression(e)) => exists|i: int|
                    #[trigger] is_first_malformed(declaration.args.elements(), i)
                        && declaration.args.elements()[i].wrapped_tokens() == Some(e.source@),
                Err(AggregateError::InvalidAggregateDescriptor { field }) => is_shape_list_possible(
                    declaration.args.elements(),
                ) && declaration.inconsistent_field() == Some(field@),
            },
    {
        let AggregateDeclaration {
            name,
            args,
            state_type,
            finalize_type,
            order_by_type,
            moving_state_type,
            parallel,
            finalize_modify,
            moving_finalize_modify,
            initial_condition,
            moving_initial_condition,
            sort_operator,
            hypothetical,
            state_fn,
            finalize_fn,
            combine_fn,
            serial_fn,
            deserial_fn,
            moving_state_fn,
            moving_finalize_fn,
        } = declaration;
        let ghost types = args.elements();
        let argument_shapes = match MaybeVariadicTypeList::new(args) {
            Ok(list) => list.shapes(),
            Err(e) => {
                return Err(AggregateError::MalformedTypeExpression(e));
            },
        };
        proof {
            assert(is_shape_list(types, shape_views(argument_shapes@)));
        }
        let moving_finalize_modify = match moving_finalize_modify {
            Some(mode) => mode,
            None => FinalizeModify::Unspecified,
        };
        let moving = moving_state_type.is_some();
        if moving_state_fn.is_some() != moving {
            return Err(AggregateError::InvalidAggregateDescriptor { field: "moving_state_fn" });
        }
        if moving_finalize_fn.is_some() != moving {
            return Err(AggregateError::InvalidAggregateDescriptor { field: "moving_finalize_fn" });
        }
        if moving_initial_condition.is_some() != moving {
            return Err(
                AggregateError::InvalidAggregateDescriptor { field: "moving_initial_condition" },
            );
        }
        if !moving && !matches!(moving_finalize_modify, FinalizeModify::Unspecified) {
            return Err(
                AggregateError::InvalidAggregateDescriptor { field: "moving_finalize_modify" },
            );
        }
        Ok(
            AggregateDescriptor {
                name,
                argument_shapes,
                state_type,
                finalize_type,
                order_by_type,
                moving_state_type,
                parallel_safety: match parallel {
                    Some(option) => option,
                    None => ParallelOption::Unspecified,
                },
                finalize_modify: match finalize_modify {
                    Some(mode) => mode,
                    None => FinalizeModify::Unspecified,
                },
                moving_finalize_modify,
                initial_condition,
                moving_initial_condition,
                sort_operator,
                hypothetical: match hypothetical {
                    Some(flag) => flag,
                    None => false,
                },
                state_fn,
                finalize_fn,
                combine_fn,
                serial_fn,
                deserial_fn,
                moving_state_fn,
                moving_finalize_fn,
            },
        )
    }
}

/// Whether every type of `types` can be read as an argument.
pub open spec fn is_shape_list_possible(types: Seq<SourceTypeView>) -> bool {
    forall|i: int| 0 <= i < types.len() ==> classified_shape(#[trigger] types[i]) is Some
}

impl AggregateDescriptor {
    /// The argument list of the statement: the SQL of each shape, joined
    /// by commas, and after it the ordering argument if there is one.
    pub open spec fn argument_list(&self) -> Seq<char> {
        let arguments = join(shapes_sql(shape_views(self.argument_shapes@)), ", "@);
        match self.order_by_type {
            Some(ty) => arguments + " ORDER BY "@ + sql_type_name(ty@),
            None => arguments,
        }
    }

    /// The settings of the statement, one line each. `sfunc` and `stype`
    /// are always there; each other setting is there if the descriptor
    /// holds a value for it, and `hypothetical` if the flag is set.
    pub open spec fn settings(&self) -> Seq<Seq<char>> {
        let lines = with_setting(Seq::empty(), "sfunc"@, Some(self.state_fn@));
        let lines = with_setting(lines, "stype"@, Some(sql_type_name(self.state_type@)));
        let lines = with_setting(lines, "finalfunc"@, option_text(self.finalize_fn));
        let lines = with_setting(lines, "finalfunc_modify"@, self.finalize_modify.sql());
        let lines = with_setting(lines, "combinefunc"@, option_text(self.combine_fn));
        let lines = with_setting(lines, "serialfunc"@, option_text(self.serial_fn));
        let lines = with_setting(lines, "deserialfunc"@, option_text(self.deserial_fn));
        let lines = with_setting(lines, "initcond"@, quoted_option(self.initial_condition));
        let lines = with_setting(lines, "msfunc"@, option_text(self.moving_state_fn));
        let lines = with_setting(lines, "mstype"@, sql_type_option(self.moving_state_type));
        let lines = with_setting(lines, "mfinalfunc"@, option_text(self.moving_finalize_fn));
        let lines = with_setting(lines, "mfinalfunc_modify"@, self.moving_finalize_modify.sql());
        let lines = with_setting(lines, "minitcond"@, quoted_option(self.moving_initial_condition));
        let lines = with_setting(lines, "sortop"@, option_text(self.sort_operator));
        let lines = with_setting(lines, "parallel"@, self.parallel_safety.sql());
        if self.hypothetical {
            lines.push("hypothetical"@)
        } else {
            lines
        }
    }

    /// The `CREATE AGGREGATE` statement of the aggregate.
    pub open spec fn sql(&self) -> Seq<char> {
        "CREATE AGGREGATE "@ + self.name@ + " ("@ + self.argument_list() + ")\n(\n    "@ + join(
            self.settings(),
            ",\n    "@,
        ) + "\n);"@
    }

    /// The argument list of the statement.
    fn argument_list_sql(&self) -> (r: String)
        ensures
            r@ == self.argument_list(),
    {
        let mut arguments: Vec<String> = Vec::new();
        let mut i: usize = 0;
        while i < self.argument_shapes.len()
            invariant
                i <= self.argument_shapes.len(),
                arguments.len() == i,
                forall|k: int| 0 <= k < i ==> (#[trigger] arguments[k])@ == self.argument_shapes[k]@.sql(),
            decreases self.argument_shapes.len() - i,
        {
            arguments.push(self.argument_shapes[i].to_sql());
            i += 1;
        }
        assert(texts(arguments@) =~= shapes_sql(shape_views(self.argument_shapes@)));
        let mut r = join_strings(&arguments, ", ");
        match &self.order_by_type {
            Some(ty) => {
                r.append(" ORDER BY ");
                r.append(sql_name_of(ty.as_str()).as_str());
            },
            None => {},
        }
        r
    }

    /// The settings of the statement, one line each.
    fn settings_sql(&self) -> (r: Vec<String>)
        ensures
            texts(r@) == self.settings(),
    {
        let mut lines: Vec<String> = Vec::new();
        assert(texts(lines@) =~= Seq::<Seq<char>>::empty());
        push_setting(&mut lines, "sfunc", self.state_fn.as_str());
        push_setting(&mut lines, "stype", sql_name_of(self.state_type.as_str()).as_str());
        push_optional_setting(&mut lines, "finalfunc", &self.finalize_fn);
        push_optional_setting(&mut lines, "finalfunc_modify", &self.finalize_modify.to_sql());
        push_optional_setting(&mut lines, "combinefunc", &self.combine_fn);
        push_optional_setting(&mut lines, "serialfunc", &self.serial_fn);
        push_optional_setting(&mut lines, "deserialfunc", &self.deserial_fn);
        push_optional_setting(&mut lines, "initcond", &quote_option(&self.initial_condition));
        push_optional_setting(&mut lines, "msfunc", &self.moving_state_fn);
        push_optional_setting(&mut lines, "mstype", &sql_name_option(&self.moving_state_type));
        push_optional_setting(&mut lines, "mfinalfunc", &self.moving_finalize_fn);
        push_optional_setting(&mut lines, "mfinalfunc_modify", &self.moving_finalize_modify.to_sql());
        push_optional_setting(&mut lines, "minitcond", &quote_option(&self.moving_initial_condition));
        push_optional_setting(&mut lines, "sortop", &self.sort_operator);
        push_optional_setting(&mut lines, "parallel", &self.parallel_safety.to_sql());
        if self.hypothetical {
            let ghost before = texts(lines@);
            lines.push(String::from_str("hypothetical"));
            assert(texts(lines@) =~= before.push("hypothetical"@));
        }
        lines
    }

    /// The `CREATE AGGREGATE` statement of the aggregate.
    pub fn to_sql(&self) -> (sql: String)
        ensures
            sql@ == self.sql(),
    {
        let mut sql = String::from_str("CREATE AGGREGATE ");
        sql.append(self.name.as_str());
        sql.append(" (");
        sql.append(self.argument_list_sql().as_str());
        sql.append(")\n(\n    ");
        sql.append(join_strings(&self.settings_sql(), ",\n    ").as_str());
        sql.append("\n);");
        sql
    }
}

/// `text` between single quotes, if there is a text.
fn quote_option(text: &Option<String>) -> (r: Option<String>)
    ensures
        option_text(r) == quoted_option(*text),
{
    match text {
        Some(t) => Some(quote(t.as_str())),
        None => None,
    }
}

/// The SQL name of the type written `source`, if there is a type.
fn sql_name_option(source: &Option<String>) -> (r: Option<String>)
    ensures
        option_text(r) == sql_type_option(*source),
{
    match source {
        Some(s) => Some(sql_name_of(s.as_str())),
        None => None,
    }
}

} // verus!

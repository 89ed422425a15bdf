//! The SQL entities of an extension: what each is identified by, what it
//! depends on, and the SQL that it renders to.
//!
//! The extension root renders to a header comment and to no statement; it
//! is what every other entity depends on.

use vstd::prelude::*;
use vstd::string::*;
use crate::aggregate::{shapes_sql, AggregateDescriptor};
use crate::control_file::{root_identifier, root_sql, ControlFile};
use crate::maybe_variadic_type::{shape_views, ValueShape};
use crate::sql::{
    is_builtin_type,
    join,
    join_strings,
    push_optional_setting,
    push_setting,
    sql_name_of,
    sql_type_name,
    type_is_builtin,
    with_setting,
};
use crate::text::texts;

verus! {

/// A type that the extension defines.
#[derive(Debug, Clone)]
pub struct TypeDescriptor {
    /// The name of the type, in the host language and in SQL alike.
    pub name: String,
    /// The identities of the entities that have to be there before the
    /// type.
    pub depends_on: Vec<String>,
}

/// A function that the extension defines.
#[derive(Debug, Clone)]
pub struct FunctionDescriptor {
    /// The SQL name of the function.
    pub name: String,
    /// The shapes of its arguments, in order.
    pub arguments: Vec<ValueShape>,
    /// The type of its result, or `None` if it returns nothing.
    pub return_type: Option<String>,
    /// The identities of the entities that have to be there before the
    /// function.
    pub depends_on: Vec<String>,
}

/// An operator that the extension defines.
#[derive(Debug, Clone)]
pub struct OperatorDescriptor {
    /// The symbol of the operator.
    pub name: String,
    /// The SQL name of the function that implements it.
    pub function: String,
    /// The type of the left operand, if there is one.
    pub left_type: Option<String>,
    /// The type of the right operand, if there is one.
    pub right_type: Option<String>,
    /// The identities of the entities that have to be there before the
    /// operator, besides its function.
    pub depends_on: Vec<String>,
}

/// One SQL entity of an extension.
#[derive(Debug, Clone)]
pub enum SqlGraphEntity {
    ExtensionRoot(ControlFile),
    TypeDef(TypeDescriptor),
    FunctionDef(FunctionDescriptor),
    AggregateDef(AggregateDescriptor),
    OperatorDef(OperatorDescriptor),
}

/// The identity of the type named `name`.
pub open spec fn type_identity(name: Seq<char>) -> Seq<char> {
    "type "@ + name
}

/// The identity of the function named `name`.
pub open spec fn function_identity(name: Seq<char>) -> Seq<char> {
    "fn "@ + name
}

/// The identity of the aggregate named `name`.
pub open spec fn aggregate_identity(name: Seq<char>) -> Seq<char> {
    "aggregate "@ + name
}

/// The identity of the operator named `name`.
pub open spec fn operator_identity(name: Seq<char>) -> Seq<char> {
    "operator "@ + name
}

/// `dependencies`, followed by the identity of the type written `source`
/// unless the database has that type built in.
pub open spec fn with_type(dependencies: Seq<Seq<char>>, source: Seq<char>) -> Seq<Seq<char>> {
    if is_builtin_type(source) {
        dependencies
    } else {
        dependencies.push(type_identity(source))
    }
}

/// `dependencies`, followed by the identity of the function `name` if there
/// is one.
pub open spec fn with_function(dependencies: Seq<Seq<char>>, name: Option<String>) -> Seq<
    Seq<char>,
> {
    match name {
        Some(n) => dependencies.push(function_identity(n@)),
        None => dependencies,
    }
}

impl TypeDescriptor {
    /// The `CREATE TYPE` statement of the type.
    pub open spec fn sql(&self) -> Seq<char> {
        "CREATE TYPE "@ + self.name@ + ";"@
    }

    /// The `CREATE TYPE` statement of the type.
    pub fn to_sql(&self) -> (sql: String)
        ensures
            sql@ == self.sql(),
    {
        let mut sql = String::from_str("CREATE TYPE ");
        sql.append(self.name.as_str());
        sql.append(";");
        sql
    }
}

impl FunctionDescriptor {
    /// The SQL name of the result type, `void` for a function that returns
    /// nothing.
    pub open spec fn result_type(&self) -> Seq<char> {
        match self.return_type {
            Some(ty) => sql_type_name(ty@),
            None => "void"@,
        }
    }

    /// The `CREATE FUNCTION` statement of the function. The function is
    /// bound to the symbol that carries its name with `_wrapper` after it.
    pub open spec fn sql(&self) -> Seq<char> {
        "CREATE FUNCTION "@ + self.name@ + "("@ + join(
            shapes_sql(shape_views(self.arguments@)),
            ", "@,
        ) + ") RETURNS "@ + self.result_type() + " LANGUAGE c AS 'MODULE_PATHNAME', '"@ + self.name@
            + "_wrapper';"@
    }

    /// The `CREATE FUNCTION` statement of the function.
    pub fn to_sql(&self) -> (sql: String)
        ensures
            sql@ == self.sql(),
    {
        let mut arguments: Vec<String> = Vec::new();
        let mut i: usize = 0;
        while i < self.arguments.len()
            invariant
                i <= self.arguments.len(),
                arguments.len() == i,
                forall|k: int| 0 <= k < i ==> (#[trigger] arguments[k])@ == self.arguments[k]@.sql(),
            decreases self.arguments.len() - i,
        {
            arguments.push(self.arguments[i].to_sql());
            i += 1;
        }
        assert(texts(arguments@) =~= shapes_sql(shape_views(self.arguments@)));
        let result = match &self.return_type {
            Some(ty) => sql_name_of(ty.as_str()),
            None => String::from_str("void"),
        };
        let mut sql = String::from_str("CREATE FUNCTION ");
        sql.append(self.name.as_str());
        sql.append("(");
        sql.append(join_strings(&arguments, ", ").as_str());
        sql.append(") RETURNS ");
        sql.append(result.as_str());
        sql.append(" LANGUAGE c AS 'MODULE_PATHNAME', '");
        sql.append(self.name.as_str());
        sql.append("_wrapper';");
        sql
    }
}

/// The SQL name of the type written `source`, if there is a type.
pub open spec fn operand_type(source: Option<String>) -> Option<Seq<char>> {
    match source {
        Some(s) => Some(sql_type_name(s@)),
        None => None,
    }
}

impl OperatorDescriptor {
    /// The settings of the statement, one line each: the function, and
    /// each operand type that there is.
    pub open spec fn settings(&self) -> Seq<Seq<char>> {
        let lines = with_setting(Seq::empty(), "procedure"@, Some(self.function@));
        let lines = with_setting(lines, "leftarg"@, operand_type(self.left_type));
        with_setting(lines, "rightarg"@, operand_type(self.right_type))
    }

    /// The `CREATE OPERATOR` statement of the operator.
    pub open spec fn sql(&self) -> Seq<char> {
        "CREATE OPERATOR "@ + self.name@ + " (\n    "@ + join(self.settings(), ",\n    "@) + "\n);"@
    }

    /// The `CREATE OPERATOR` statement of the operator.
    pub fn to_sql(&self) -> (sql: String)
        ensures
            sql@ == self.sql(),
    {
        let mut lines: Vec<String> = Vec::new();
        assert(texts(lines@) =~= Seq::<Seq<char>>::empty());
        push_setting(&mut lines, "procedure", self.function.as_str());
        let left = match &self.left_type {
            Some(ty) => Some(sql_name_of(ty.as_str())),
            None => None,
        };
        push_optional_setting(&mut lines, "leftarg", &left);
        let right = match &self.right_type {
            Some(ty) => Some(sql_name_of(ty.as_str())),
            None => None,
        };
        push_optional_setting(&mut lines, "rightarg", &right);
        let mut sql = String::from_str("CREATE OPERATOR ");
        sql.append(self.name.as_str());
        sql.append(" (\n    ");
        sql.append(join_strings(&lines, ",\n    ").as_str());
        sql.append("\n);");
        sql
    }
}

/// Append to `dependencies` the identity of the function `name`, if there
/// is one.
fn push_function(dependencies: &mut Vec<String>, name: &Option<String>)
    ensures
        texts(final(dependencies)@) == with_function(texts(old(dependencies)@), *name),
{
    match name {
        Some(n) => {
            let mut identity = String::from_str("fn ");
            identity.append(n.as_str());
            dependencies.push(identity);
            assert(texts(dependencies@) =~= texts(old(dependencies)@).push(function_identity(n@)));
        },
        None => {},
    }
}

/// Append copies of `more` to `dependencies`.
fn push_all(dependencies: &mut Vec<String>, more: &Vec<String>)
    ensures
        texts(final(dependencies)@) == texts(old(dependencies)@) + texts(more@),
{
    let mut i: usize = 0;
    assert(texts(dependencies@) =~= texts(old(dependencies)@) + texts(more@).take(0));
    while i < more.len()
        invariant
            i <= more.len(),
            texts(dependencies@) == texts(old(dependencies)@) + texts(more@).take(i as int),
        decreases more.len() - i,
    {
        let ghost before = texts(dependencies@);
        dependencies.push(more[i].clone());
        assert(texts(dependencies@) =~= before.push(more@[i as int]@));
        assert(texts(more@).take(i + 1) =~= texts(more@).take(i as int).push(more@[i as int]@));
        assert(texts(dependencies@) =~= texts(old(dependencies)@) + texts(more@).take(i + 1));
        i += 1;
    }
    assert(texts(more@).take(more.len() as int) =~= texts(more@));
}

impl SqlGraphEntity {
    /// The text by which the entity is identified among the entities of an
    /// extension.
    pub open spec fn identity(&self) -> Seq<char> {
        match self {
            SqlGraphEntity::ExtensionRoot(_) => root_identifier(),
            SqlGraphEntity::TypeDef(ty) => type_identity(ty.name@),
            SqlGraphEntity::FunctionDef(function) => function_identity(function.name@),
            SqlGraphEntity::AggregateDef(aggregate) => aggregate_identity(aggregate.name@),
            SqlGraphEntity::OperatorDef(operator) => operator_identity(operator.name@),
        }
    }

    /// The identities that the entity depends on.
    ///
    /// The extension root depends on nothing, every other entity on the
    /// extension root. A type and a function depend as well on what their
    /// descriptors list. An operator depends as well on its function, and
    /// then on what its descriptor lists. An aggregate depends as well on
    /// the type of its state, unless the database has that type built in,
    /// and on each function that it names.
    pub open spec fn dependencies(&self) -> Seq<Seq<char>> {
        match self {
            SqlGraphEntity::ExtensionRoot(_) => Seq::empty(),
            SqlGraphEntity::TypeDef(ty) => seq![root_identifier()] + texts(ty.depends_on@),
            SqlGraphEntity::FunctionDef(function) => seq![root_identifier()] + texts(
                function.depends_on@,
            ),
            SqlGraphEntity::AggregateDef(aggregate) => {
                let found = with_type(seq![root_identifier()], aggregate.state_type@);
                let found = found.push(function_identity(aggregate.state_fn@));
                let found = with_function(found, aggregate.finalize_fn);
                let found = with_function(found, aggregate.combine_fn);
                let found = with_function(found, aggregate.serial_fn);
                let found = with_function(found, aggregate.deserial_fn);
                let found = with_function(found, aggregate.moving_state_fn);
                with_function(found, aggregate.moving_finalize_fn)
            },
            SqlGraphEntity::OperatorDef(operator) => seq![
                root_identifier(),
                function_identity(operator.function@),
            ] + texts(operator.depends_on@),
        }
    }

    /// The SQL that the entity renders to.
    pub open spec fn sql(&self) -> Seq<char> {
        match self {
            SqlGraphEntity::ExtensionRoot(_) => root_sql(),
            SqlGraphEntity::TypeDef(ty) => ty.sql(),
            SqlGraphEntity::FunctionDef(function) => function.sql(),
            SqlGraphEntity::AggregateDef(aggregate) => aggregate.sql(),
            SqlGraphEntity::OperatorDef(operator) => operator.sql(),
        }
    }

    /// The text by which the entity is identified.
    pub fn dot_identifier(&self) -> (id: String)
        ensures
            id@ == self.identity(),
    {
        match self {
            SqlGraphEntity::ExtensionRoot(control) => control.dot_identifier(),
            SqlGraphEntity::TypeDef(ty) => {
                let mut id = String::from_str("type ");
                id.append(ty.name.as_str());
                id
            },
            SqlGraphEntity::FunctionDef(function) => {
                let mut id = String::from_str("fn ");
                id.append(function.name.as_str());
                id
            },
            SqlGraphEntity::AggregateDef(aggregate) => {
                let mut id = String::from_str("aggregate ");
                id.append(aggregate.name.as_str());
                id
            },
            SqlGraphEntity::OperatorDef(operator) => {
                let mut id = String::from_str("operator ");
                id.append(operator.name.as_str());
                id
            },
        }
    }

    /// The identities that the entity depends on.
    pub fn dependency_identifiers(&self) -> (r: Vec<String>)
        ensures
            texts(r@) == self.dependencies(),
    {
        let mut found: Vec<String> = Vec::new();
        match self {
            SqlGraphEntity::ExtensionRoot(_) => {
                assert(texts(found@) =~= Seq::<Seq<char>>::empty());
            },
            SqlGraphEntity::TypeDef(ty) => {
                found.push(String::from_str("extension root"));
                assert(texts(found@) =~= seq![root_identifier()]);
                push_all(&mut found, &ty.depends_on);
            },
            SqlGraphEntity::FunctionDef(function) => {
                found.push(String::from_str("extension root"));
                assert(texts(found@) =~= seq![root_identifier()]);
                push_all(&mut found, &function.depends_on);
            },
            SqlGraphEntity::AggregateDef(aggregate) => {
                found.push(String::from_str("extension root"));
                assert(texts(found@) =~= seq![root_identifier()]);
                if !type_is_builtin(aggregate.state_type.as_str()) {
                    let ghost before = texts(found@);
                    let mut identity = String::from_str("type ");
                    identity.append(aggregate.state_type.as_str());
                    found.push(identity);
                    assert(texts(found@) =~= before.push(type_identity(aggregate.state_type@)));
                }
                let ghost before = texts(found@);
                let mut identity = String::from_str("fn ");
                identity.append(aggregate.state_fn.as_str());
                found.push(identity);
                assert(texts(found@) =~= before.push(function_identity(aggregate.state_fn@)));
                push_function(&mut found, &aggregate.finalize_fn);
                push_function(&mut found, &aggregate.combine_fn);
                push_function(&mut found, &aggregate.serial_fn);
                push_function(&mut found, &aggregate.deserial_fn);
                push_function(&mut found, &aggregate.moving_state_fn);
                push_function(&mut found, &aggregate.moving_finalize_fn);
            },
            SqlGraphEntity::OperatorDef(operator) => {
                found.push(String::from_str("extension root"));
                let mut identity = String::from_str("fn ");
                identity.append(operator.function.as_str());
                found.push(identity);
                assert(texts(found@) =~= seq![
                    root_identifier(),
                    function_identity(operator.function@),
                ]);
                push_all(&mut found, &operator.depends_on);
            },
        }
        found
    }

    /// The SQL that the entity renders to.
    pub fn to_sql(&self) -> (sql: String)
        ensures
            sql@ == self.sql(),
    {
        match self {
            SqlGraphEntity::ExtensionRoot(control) => control.to_sql(),
            SqlGraphEntity::TypeDef(ty) => ty.to_sql(),
            SqlGraphEntity::FunctionDef(function) => function.to_sql(),
            SqlGraphEntity::AggregateDef(aggregate) => aggregate.to_sql(),
            SqlGraphEntity::OperatorDef(operator) => operator.to_sql(),
        }
    }
}

impl From<ControlFile> for SqlGraphEntity {
    /// The extension root that `control` describes.
    fn from(control: ControlFile) -> (entity: SqlGraphEntity) {
        SqlGraphEntity::ExtensionRoot(control)
    }
}

impl vstd::std_specs::convert::FromSpecImpl<ControlFile> for SqlGraphEntity {
    open spec fn obeys_from_spec() -> bool {
        true
    }

    open spec fn from_spec(control: ControlFile) -> SqlGraphEntity {
        SqlGraphEntity::ExtensionRoot(control)
    }
}

} // verus!

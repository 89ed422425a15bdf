//! Pieces of SQL text that several entities render with.

use vstd::prelude::*;
use vstd::string::*;
use crate::text::{str_eq, texts};

verus! {

/// The SQL name of the type that is written `source` in the host language.
///
/// The types of the host language that the database has a counterpart for
/// are named by it; any other type keeps its name.
pub open spec fn sql_type_name(source: Seq<char>) -> Seq<char> {
    if source == "bool"@ {
        "boolean"@
    } else if source == "i16"@ {
        "smallint"@
    } else if source == "i32"@ {
        "integer"@
    } else if source == "i64"@ {
        "bigint"@
    } else if source == "String"@ {
        "text"@
    } else {
        source
    }
}

/// Whether the database has the type written `source` built in, so that
/// no entity has to define it.
pub open spec fn is_builtin_type(source: Seq<char>) -> bool {
    ||| source == "bool"@
    ||| source == "i16"@
    ||| source == "i32"@
    ||| source == "i64"@
    ||| source == "String"@
}

/// The pieces of `parts`, with `separator` between every two of them.
pub open spec fn join(parts: Seq<Seq<char>>, separator: Seq<char>) -> Seq<char>
    decreases parts.len(),
{
    if parts.len() == 0 {
        Seq::empty()
    } else if parts.len() == 1 {
        parts[0]
    } else {
        join(parts.drop_last(), separator) + separator + parts.last()
    }
}

/// `lines`, followed by the line `key = value` if there is a value.
pub open spec fn with_setting(
    lines: Seq<Seq<char>>,
    key: Seq<char>,
    value: Option<Seq<char>>,
) -> Seq<Seq<char>> {
    match value {
        Some(v) => lines.push(key + " = "@ + v),
        None => lines,
    }
}

/// `text` between single quotes.
pub open spec fn quoted(text: Seq<char>) -> Seq<char> {
    "'"@ + text + "'"@
}

/// The text of an optional string.
pub open spec fn option_text(value: Option<String>) -> Option<Seq<char>> {
    match value {
        Some(s) => Some(s@),
        None => None,
    }
}

/// Whether the database has the type written `source` built in.
pub fn type_is_builtin(source: &str) -> (r: bool)
    ensures
        r == is_builtin_type(source@),
{
    str_eq(source, "bool") || str_eq(source, "i16") || str_eq(source, "i32") || str_eq(
        source,
        "i64",
    ) || str_eq(source, "String")
}

/// The SQL name of the type that is written `source`.
pub fn sql_name_of(source: &str) -> (r: String)
    ensures
        r@ == sql_type_name(source@),
{
    if str_eq(source, "bool") {
        String::from_str("boolean")
    } else if str_eq(source, "i16") {
        String::from_str("smallint")
    } else if str_eq(source, "i32") {
        String::from_str("integer")
    } else if str_eq(source, "i64") {
        String::from_str("bigint")
    } else if str_eq(source, "String") {
        String::from_str("text")
    } else {
        String::from_str(source)
    }
}

/// `parts` in one text, with `separator` between every two of them.
pub fn join_strings(parts: &Vec<String>, separator: &str) -> (r: String)
    ensures
        r@ == join(texts(parts@), separator@),
{
    let mut r = String::new();
    let mut i: usize = 0;
    while i < parts.len()
        invariant
            i <= parts.len(),
            r@ == join(texts(parts@).take(i as int), separator@),
        decreases parts.len() - i,
    {
        let ghost before = texts(parts@).take(i as int);
        let ghost after = texts(parts@).take(i + 1);
        proof {
            assert(after.drop_last() =~= before);
            assert(after.last() == parts@[i as int]@);
        }
        if i > 0 {
            r.append(separator);
        } else {
            assert(r@ + parts@[i as int]@ =~= parts@[i as int]@);
        }
        r.append(parts[i].as_str());
        i += 1;
    }
    assert(texts(parts@).take(parts.len() as int) =~= texts(parts@));
    r
}

/// Append the line `key = value` to `lines`.
pub fn push_setting(lines: &mut Vec<String>, key: &str, value: &str)
    ensures
        texts(final(lines)@) == with_setting(texts(old(lines)@), key@, Some(value@)),
{
    let mut line = String::from_str(key);
    line.append(" = ");
    line.append(value);
    lines.push(line);
    assert(texts(lines@) =~= texts(old(lines)@).push(key@ + " = "@ + value@));
}

/// Append the line `key = value` to `lines` if there is a value.
pub fn push_optional_setting(lines: &mut Vec<String>, key: &str, value: &Option<String>)
    ensures
        texts(final(lines)@) == with_setting(texts(old(lines)@), key@, option_text(*value)),
{
    match value {
        Some(v) => push_setting(lines, key, v.as_str()),
        None => {},
    }
}

/// `text` between single quotes.
pub fn quote(text: &str) -> (r: String)
    ensures
        r@ == quoted(text@),
{
    let mut r = String::from_str("'");
    r.append(text);
    r.append("'");
    r
}

} // verus!

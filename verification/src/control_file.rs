//! The extension manifest (the `.control` file) and its parser.
//!
//! A manifest is line-oriented text. A line that holds a `=` is an entry:
//! the key is the text before the first `=`, trimmed; the value is the text
//! after it, trimmed and then relieved of one leading and one trailing
//! single quote. Lines without a `=` are ignored, and of several entries
//! with one key the last one counts.

use vstd::prelude::*;
use vstd::string::*;
use crate::text::{
    chars_of,
    find_char,
    first_index_of,
    lemma_first_index_of,
    lemma_first_index_of_in_range,
    range_eq,
    trim,
    trim_range,
};

verus! {

/// The parsed contents of a `.control` file.
#[derive(Debug, Clone, Hash, PartialOrd, Ord, PartialEq, Eq)]
pub struct ControlFile {
    pub comment: String,
    pub default_version: String,
    pub module_pathname: String,
    pub relocatable: bool,
    pub superuser: bool,
    pub schema: Option<String>,
}

/// An error met while parsing a `.control` file.
#[derive(Debug, Clone, PartialEq, Eq)]
pub enum ControlFileError {
    /// A mandatory key has no entry in the manifest.
    MissingField { field: &'static str },
}

impl ControlFileError {
    /// What the error says to the author of the manifest.
    pub open spec fn message_text(&self) -> Seq<char> {
        match self {
            ControlFileError::MissingField { field } => "Missing field in control file! Please add `"@
                + field@ + "`."@,
        }
    }

    /// What the error says to the author of the manifest.
    pub fn message(&self) -> (r: String)
        ensures
            r@ == self.message_text(),
    {
        match self {
            ControlFileError::MissingField { field } => {
                let mut r = String::from_str("Missing field in control file! Please add `");
                r.append(field);
                r.append("`.");
                r
            },
        }
    }
}

/// `s` without one leading and one trailing single quote, each removed only
/// if present.
pub open spec fn strip_quotes(s: Seq<char>) -> Seq<char> {
    let a = if s.len() > 0 && s[0] == '\'' {
        s.drop_first()
    } else {
        s
    };
    if a.len() > 0 && a.last() == '\'' {
        a.drop_last()
    } else {
        a
    }
}

/// The key and the value of one manifest line, or `None` for a line without
/// a `=`.
pub open spec fn line_entry(line: Seq<char>) -> Option<(Seq<char>, Seq<char>)> {
    let i = first_index_of(line, '=');
    if 0 <= i < line.len() {
        Some((trim(line.take(i)), strip_quotes(trim(line.skip(i + 1)))))
    } else {
        None
    }
}

/// The value that `line` gives to `key`, if it is an entry for `key`.
pub open spec fn line_value(line: Seq<char>, key: Seq<char>) -> Option<Seq<char>> {
    match line_entry(line) {
        Some((k, v)) => if k == key {
            Some(v)
        } else {
            None
        },
        None => None,
    }
}

/// `later` if it holds a value, else `earlier`.
pub open spec fn later_wins<T>(later: Option<T>, earlier: Option<T>) -> Option<T> {
    match later {
        Some(_) => later,
        None => earlier,
    }
}

/// The value that the manifest `text` gives to `key`: that of the last line
/// that is an entry for `key`, or `None` if there is no such line. Lines
/// end at `'\n'`.
pub open spec fn manifest_value(text: Seq<char>, key: Seq<char>) -> Option<Seq<char>>
    decreases text.len(),
{
    let n = first_index_of(text, '\n');
    let here = line_value(text.take(n), key);
    if 0 <= n < text.len() {
        later_wins(manifest_value(text.skip(n + 1), key), here)
    } else {
        here
    }
}

/// The first of the mandatory keys `comment`, `default_version` and
/// `module_pathname` that `text` gives no value to.
pub open spec fn first_missing_field(text: Seq<char>) -> Option<Seq<char>> {
    if manifest_value(text, "comment"@) is None {
        Some("comment"@)
    } else if manifest_value(text, "default_version"@) is None {
        Some("default_version"@)
    } else if manifest_value(text, "module_pathname"@) is None {
        Some("module_pathname"@)
    } else {
        None
    }
}

/// A line added at the end of a manifest decides the value of the key that
/// it is an entry for, and leaves the value of every other key as it was.
pub proof fn lemma_last_line_wins(text: Seq<char>, line: Seq<char>, key: Seq<char>)
    requires
        forall|k: int| 0 <= k < line.len() ==> line[k] != '\n',
    ensures
        manifest_value(text + seq!['\n'] + line, key) == later_wins(
            line_value(line, key),
            manifest_value(text, key),
        ),
    decreases text.len(),
{
    let whole = text + seq!['\n'] + line;
    let n = first_index_of(text, '\n');
    lemma_first_index_of(line, '\n', line.len() as int);
    assert(line.take(line.len() as int) =~= line);
    lemma_first_index_of_in_range(text, '\n');
    assert forall|k: int| 0 <= k < n implies whole[k] != '\n' by {
        assert(whole[k] == text[k]);
    }
    if n < text.len() {
        assert(whole[n] == text[n]);
        lemma_first_index_of(whole, '\n', n);
        assert(whole.take(n) =~= text.take(n));
        assert(whole.skip(n + 1) =~= text.skip(n + 1) + seq!['\n'] + line);
        lemma_last_line_wins(text.skip(n + 1), line, key);
        assert(manifest_value(whole, key) == later_wins(
            manifest_value(whole.skip(n + 1), key),
            line_value(text.take(n), key),
        ));
    } else {
        assert(whole[n] == '\n');
        lemma_first_index_of(whole, '\n', n);
        assert(whole.take(n) =~= text);
        assert(text.take(n) =~= text);
        assert(whole.skip(n + 1) =~= line);
        assert(manifest_value(line, key) == line_value(line, key));
        assert(manifest_value(text, key) == line_value(text, key));
        assert(manifest_value(whole, key) == later_wins(
            manifest_value(line, key),
            line_value(text, key),
        ));
    }
}

/// The header comment that the extension root renders to.
pub open spec fn root_sql() -> Seq<char> {
    "/* \nThis file is auto generated by pgx.\n\nThe ordering of items is not stable, it is driven by a dependency graph.\n*/"@
}

/// The text by which the extension root is identified.
pub open spec fn root_identifier() -> Seq<char> {
    "extension root"@
}

/// The bounds, within `chars`, of the value that the manifest gives to
/// `key`.
fn find_value(chars: &Vec<char>, key: &Vec<char>) -> (r: Option<(usize, usize)>)
    ensures
        match r {
            Some((a, b)) => a <= b <= chars.len() && manifest_value(chars@, key@) == Some(
                chars@.subrange(a as int, b as int),
            ),
            None => manifest_value(chars@, key@) is None,
        },
{
    let len = chars.len();
    let mut pos: usize = 0;
    let mut found: Option<(usize, usize)> = None;
    let ghost mut value: Option<Seq<char>> = None;
    assert(chars@.skip(0) =~= chars@);
    loop
        invariant_except_break
            manifest_value(chars@, key@) == later_wins(
                manifest_value(chars@.skip(pos as int), key@),
                value,
            ),
        invariant
            pos <= len == chars.len(),
            match found {
                Some((a, b)) => a <= b <= len && value == Some(chars@.subrange(a as int, b as int)),
                None => value is None,
            },
        ensures
            manifest_value(chars@, key@) == value,
        decreases len - pos,
    {
        let ghost rest = chars@.skip(pos as int);
        let end = find_char(chars, pos, len, '\n');
        let eq = find_char(chars, pos, end, '=');
        let ghost line = chars@.subrange(pos as int, end as int);
        proof {
            assert(chars@.subrange(pos as int, len as int) =~= rest);
            assert(rest.take(end - pos) =~= line);
            assert(line.take(eq - pos) =~= chars@.subrange(pos as int, eq as int));
        }
        if eq < end {
            proof {
                assert(line.skip(eq - pos + 1) =~= chars@.subrange(eq + 1, end as int));
            }
            let (key_lo, key_hi) = trim_range(chars, pos, eq);
            if range_eq(chars, key_lo, key_hi, key) {
                let (mut lo, mut hi) = trim_range(chars, eq + 1, end);
                let ghost trimmed = chars@.subrange(lo as int, hi as int);
                if lo < hi && chars[lo] == '\'' {
                    lo += 1;
                }
                let ghost unquoted = chars@.subrange(lo as int, hi as int);
                if lo < hi && chars[hi - 1] == '\'' {
                    hi -= 1;
                }
                proof {
                    assert(unquoted =~= if trimmed.len() > 0 && trimmed[0] == '\'' {
                        trimmed.drop_first()
                    } else {
                        trimmed
                    });
                    assert(chars@.subrange(lo as int, hi as int) =~= strip_quotes(trimmed));
                    value = Some(chars@.subrange(lo as int, hi as int));
                }
                found = Some((lo, hi));
            }
        }
        if end == len {
            break ;
        }
        proof {
            assert(rest.skip(end - pos + 1) =~= chars@.skip(end + 1));
        }
        pos = end + 1;
    }
    found
}

/// The text of `input` between the character positions `bounds.0` and
/// `bounds.1`.
fn slice_of(input: &str, bounds: (usize, usize)) -> (r: String)
    requires
        bounds.0 <= bounds.1 <= input@.len(),
    ensures
        r@ == input@.subrange(bounds.0 as int, bounds.1 as int),
{
    String::from_str(input.substring_char(bounds.0, bounds.1))
}

impl ControlFile {
    /// Whether `self` holds what the manifest `text` says: each mandatory
    /// field its value, each flag whether its value is exactly `true`, and
    /// `schema` its value if there is one.
    pub open spec fn parsed_from(&self, text: Seq<char>) -> bool {
        &&& manifest_value(text, "comment"@) == Some(self.comment@)
        &&& manifest_value(text, "default_version"@) == Some(self.default_version@)
        &&& manifest_value(text, "module_pathname"@) == Some(self.module_pathname@)
        &&& self.relocatable == (manifest_value(text, "relocatable"@) == Some("true"@))
        &&& self.superuser == (manifest_value(text, "superuser"@) == Some("true"@))
        &&& match manifest_value(text, "schema"@) {
            Some(v) => self.schema matches Some(s) && s@ == v,
            None => self.schema is None,
        }
    }

    /// Parse a `.control` file.
    ///
    /// Fails with `MissingField` for the first of `comment`,
    /// `default_version` and `module_pathname` that has no entry.
    pub fn from_str(input: &str) -> (r: Result<ControlFile, ControlFileError>)
        ensures
            match r {
                Ok(control) => first_missing_field(input@) is None && control.parsed_from(input@),
                Err(ControlFileError::MissingField { field }) => first_missing_field(input@)
                    == Some(field@),
            },
    {
        let chars = chars_of(input);
        let yes = chars_of("true");
        let comment = match find_value(&chars, &chars_of("comment")) {
            Some(bounds) => slice_of(input, bounds),
            None => { return Err(ControlFileError::MissingField { field: "comment" }); },
        };
        let default_version = match find_value(&chars, &chars_of("default_version")) {
            Some(bounds) => slice_of(input, bounds),
            None => { return Err(ControlFileError::MissingField { field: "default_version" }); },
        };
        let module_pathname = match find_value(&chars, &chars_of("module_pathname")) {
            Some(bounds) => slice_of(input, bounds),
            None => { return Err(ControlFileError::MissingField { field: "module_pathname" }); },
        };
        let relocatable = match find_value(&chars, &chars_of("relocatable")) {
            Some((lo, hi)) => range_eq(&chars, lo, hi, &yes),
            None => false,
        };
        let superuser = match find_value(&chars, &chars_of("superuser")) {
            Some((lo, hi)) => range_eq(&chars, lo, hi, &yes),
            None => false,
        };
        let schema = match find_value(&chars, &chars_of("schema")) {
            Some(bounds) => Some(slice_of(input, bounds)),
            None => None,
        };
        Ok(ControlFile { comment, default_version, module_pathname, relocatable, superuser, schema })
    }

    /// The SQL that the extension root renders to: a header comment, and no
    /// statement.
    pub fn to_sql(&self) -> (sql: String)
        ensures
            sql@ == root_sql(),
    {
        String::from_str(
            "/* \nThis file is auto generated by pgx.\n\nThe ordering of items is not stable, it is driven by a dependency graph.\n*/",
        )
    }

    /// The identity of the extension root among the SQL entities.
    pub fn dot_identifier(&self) -> (id: String)
        ensures
            id@ == root_identifier(),
    {
        String::from_str("extension root")
    }
}

} // verus!

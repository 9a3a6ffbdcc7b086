//! Reading values out of a table of an input file.
//!
//! Each function looks one key up in a table and asks for a value of one
//! type. A key that is missing and a value of another type are told apart in
//! the message of the error.

use vstd::prelude::*;
use vstd::string::*;
use toml::{Table, Value};

verus! {

/// The values of a TOML document, as the `toml` crate holds them.
#[verifier::external_type_specification]
#[verifier::external_body]
pub struct ExValue(toml::Value);

/// The tables of a TOML document, as the `toml` crate holds them.
#[verifier::external_type_specification]
#[verifier::external_body]
#[verifier::reject_recursive_types(K)]
#[verifier::reject_recursive_types(V)]
pub struct ExMap<K, V>(toml::map::Map<K, V>);

/// What a table holds: the value under each of its keys.
pub uninterp spec fn entries(table: Table) -> Map<Seq<char>, Value>;

/// The integer that a value is, where it is one.
pub uninterp spec fn integer_in(value: Value) -> Option<i64>;

/// The string that a value is, where it is one.
pub uninterp spec fn text_in(value: Value) -> Option<Seq<char>>;

/// The table that a value is, where it is one.
pub uninterp spec fn table_in(value: Value) -> Option<Table>;

/// The items of the array that a value is, where it is one.
pub uninterp spec fn items_in(value: Value) -> Option<Seq<Value>>;

/// `toml::map::Map::get` with a string key: the value under `key`, where the
/// table has that key.
#[verifier::external_body]
pub(crate) fn entry<'a>(config: &'a Table, key: &str) -> (found: Option<&'a Value>)
    ensures
        found is Some == entries(*config).contains_key(key@),
        found is Some ==> *found->0 == entries(*config)[key@],
{
    config.get(key)
}

/// `toml::map::Map::contains_key` with a string key: whether the table has
/// the key.
#[verifier::external_body]
pub(crate) fn has_entry(config: &Table, key: &str) -> (found: bool)
    ensures
        found == entries(*config).contains_key(key@),
{
    config.contains_key(key)
}

/// `toml::Value::as_integer`: the integer, where the value is one.
#[verifier::external_body]
pub(crate) fn as_integer(value: &Value) -> (found: Option<i64>)
    ensures
        found == integer_in(*value),
{
    value.as_integer()
}

/// `toml::Value::as_str`: the string, where the value is one.
#[verifier::external_body]
pub(crate) fn as_str<'a>(value: &'a Value) -> (found: Option<&'a str>)
    ensures
        found is Some == text_in(*value) is Some,
        found is Some ==> found->0@ == text_in(*value)->0,
{
    value.as_str()
}

/// `toml::Value::as_table`: the table, where the value is one.
#[verifier::external_body]
pub(crate) fn as_table<'a>(value: &'a Value) -> (found: Option<&'a Table>)
    ensures
        found is Some == table_in(*value) is Some,
        found is Some ==> *found->0 == table_in(*value)->0,
{
    value.as_table()
}

/// `toml::Value::as_array`: the items, where the value is an array.
#[verifier::external_body]
pub(crate) fn as_array<'a>(value: &'a Value) -> (found: Option<&'a Vec<Value>>)
    ensures
        found is Some == items_in(*value) is Some,
        found is Some ==> found->0@ == items_in(*value)->0,
{
    value.as_array()
}

/// What went wrong when reading an input.
#[derive(Debug)]
pub struct Error {
    /// What to tell the user.
    pub message: String,
}

/// The message for a key that a table lacks.
pub open spec fn missing_key(key: Seq<char>, context: Seq<char>) -> Seq<char> {
    "Missing '"@ + key + "' key in "@ + context
}

/// The message for a key whose value is not what was asked for.
pub open spec fn wrong_type(key: Seq<char>, wanted: Seq<char>, context: Seq<char>) -> Seq<char> {
    "'"@ + key + "' must be "@ + wanted + " in "@ + context
}

/// The message for a `type` key whose value is no string.
pub open spec fn wrong_typ(context: Seq<char>) -> Seq<char> {
    "'type' key must be a string in "@ + context
}

/// The error for a key that the table lacks.
fn error_missing(key: &str, context: &str) -> (error: Error)
    ensures
        error.message@ == missing_key(key@, context@),
{
    let mut message = String::from_str("Missing '");
    message.append(key);
    message.append("' key in ");
    message.append(context);
    Error { message }
}

/// The error for a key whose value is not what was asked for.
fn error_wrong_type(key: &str, wanted: &str, context: &str) -> (error: Error)
    ensures
        error.message@ == wrong_type(key@, wanted@, context@),
{
    let mut message = String::from_str("'");
    message.append(key);
    message.append("' must be ");
    message.append(wanted);
    message.append(" in ");
    message.append(context);
    Error { message }
}

/// What looking a table up under `key` gives.
pub open spec fn table_outcome(key: Seq<char>, config: Table, context: Seq<char>) -> Result<
    Table,
    Seq<char>,
> {
    if !entries(config).contains_key(key) {
        Err(missing_key(key, context))
    } else {
        match table_in(entries(config)[key]) {
            Some(table) => Ok(table),
            None => Err(wrong_type(key, "a table"@, context)),
        }
    }
}

/// What looking a string up under `key` gives.
pub open spec fn str_outcome(key: Seq<char>, config: Table, context: Seq<char>) -> Result<
    Seq<char>,
    Seq<char>,
> {
    if !entries(config).contains_key(key) {
        Err(missing_key(key, context))
    } else {
        match text_in(entries(config)[key]) {
            Some(text) => Ok(text),
            None => Err(wrong_type(key, "a string"@, context)),
        }
    }
}

/// What looking an unsigned integer up under `key` gives.
pub open spec fn uint_outcome(key: Seq<char>, config: Table, context: Seq<char>) -> Result<
    u64,
    Seq<char>,
> {
    if !entries(config).contains_key(key) {
        Err(missing_key(key, context))
    } else {
        match integer_in(entries(config)[key]) {
            Some(v) => if v < 0 {
                Err(wrong_type(key, "a positive integer"@, context))
            } else {
                Ok(v as u64)
            },
            None => Err(wrong_type(key, "a positive integer"@, context)),
        }
    }
}

/// What looking an array up under `key` gives.
pub open spec fn slice_outcome(key: Seq<char>, config: Table, context: Seq<char>) -> Result<
    Seq<Value>,
    Seq<char>,
> {
    if !entries(config).contains_key(key) {
        Err(missing_key(key, context))
    } else {
        match items_in(entries(config)[key]) {
            Some(items) => Ok(items),
            None => Err(wrong_type(key, "an array"@, context)),
        }
    }
}

/// What looking the type of a table up gives.
pub open spec fn typ_outcome(config: Table, context: Seq<char>) -> Result<Seq<char>, Seq<char>> {
    if !entries(config).contains_key("type"@) {
        Err(missing_key("type"@, context))
    } else {
        match text_in(entries(config)["type"@]) {
            Some(text) => Ok(text),
            None => Err(wrong_typ(context)),
        }
    }
}

/// Extract the table at the given `key`, from the `config` TOML table
/// interpreted as a `context`.
pub fn table<'a>(key: &str, config: &'a Table, context: &str) -> (found: Result<&'a Table, Error>)
    ensures
        match found {
            Ok(table) => table_outcome(key@, *config, context@) == Ok::<Table, Seq<char>>(*table),
            Err(error) => table_outcome(key@, *config, context@) == Err::<Table, Seq<char>>(
                error.message@,
            ),
        },
{
    match entry(config, key) {
        None => Err(error_missing(key, context)),
        Some(value) => match as_table(value) {
            Some(table) => Ok(table),
            None => Err(error_wrong_type(key, "a table", context)),
        },
    }
}

/// Extract the string at the given `key`, from the `config` TOML table
/// interpreted as a `context`
pub fn str<'a>(key: &str, config: &'a Table, context: &str) -> (found: Result<&'a str, Error>)
    ensures
        match found {
            Ok(text) => str_outcome(key@, *config, context@) == Ok::<Seq<char>, Seq<char>>(text@),
            Err(error) => str_outcome(key@, *config, context@) == Err::<Seq<char>, Seq<char>>(
                error.message@,
            ),
        },
{
    match entry(config, key) {
        None => Err(error_missing(key, context)),
        Some(value) => match as_str(value) {
            Some(text) => Ok(text),
            None => Err(error_wrong_type(key, "a string", context)),
        },
    }
}

/// Whether `found` is what looking a number up under `key` gives: an
/// integer as `from_integer` turns it into a number, and any other value as
/// `as_float` reads it, where it reads it as a number at all.
pub open spec fn number_found<R, I: Fn(i64) -> R, F: Fn(&Value) -> Option<R>>(
    key: Seq<char>,
    config: Table,
    context: Seq<char>,
    from_integer: &I,
    as_float: &F,
    found: Result<R, Seq<char>>,
) -> bool {
    if !entries(config).contains_key(key) {
        found == Err::<R, Seq<char>>(missing_key(key, context))
    } else {
        let value = entries(config)[key];
        match integer_in(value) {
            Some(v) => found is Ok && call_ensures(*from_integer, (v,), found->Ok_0),
            None => match found {
                Ok(number) => call_ensures(*as_float, (&value,), Some(number)),
                Err(message) => call_ensures(*as_float, (&value,), None) && message == wrong_type(
                    key,
                    "a number"@,
                    context,
                ),
            },
        }
    }
}

/// Extract a number (integer or float) at the given `key`, from the `config`
/// TOML table interpreted as a `context`. `from_integer` turns an integer
/// into a number, and `as_float` reads a value that is a number with a
/// fraction.
pub fn number<R, I: Fn(i64) -> R, F: Fn(&Value) -> Option<R>>(
    key: &str,
    config: &Table,
    context: &str,
    from_integer: &I,
    as_float: &F,
) -> (found: Result<R, Error>)
    requires
        forall|v: i64| call_requires(*from_integer, (v,)),
        forall|value: &Value| call_requires(*as_float, (value,)),
    ensures
        match found {
            Ok(number) => number_found(
                key@,
                *config,
                context@,
                from_integer,
                as_float,
                Ok::<R, Seq<char>>(number),
            ),
            Err(error) => number_found(
                key@,
                *config,
                context@,
                from_integer,
                as_float,
                Err::<R, Seq<char>>(error.message@),
            ),
        },
{
    match entry(config, key) {
        None => Err(error_missing(key, context)),
        Some(value) => match as_integer(value) {
            Some(v) => Ok(from_integer(v)),
            None => match as_float(value) {
                Some(number) => Ok(number),
                None => Err(error_wrong_type(key, "a number", context)),
            },
        },
    }
}

/// Extract a unsigned integer at the given `key`, from the `config`
/// TOML table interpreted as a `context`
pub fn uint(key: &str, config: &Table, context: &str) -> (found: Result<u64, Error>)
    ensures
        match found {
            Ok(number) => uint_outcome(key@, *config, context@) == Ok::<u64, Seq<char>>(number),
            Err(error) => uint_outcome(key@, *config, context@) == Err::<u64, Seq<char>>(
                error.message@,
            ),
        },
{
    match entry(config, key) {
        None => Err(error_missing(key, context)),
        Some(value) => match as_integer(value) {
            Some(v) => {
                if v < 0 {
                    Err(error_wrong_type(key, "a positive integer", context))
                } else {
                    Ok(v as u64)
                }
            },
            None => Err(error_wrong_type(key, "a positive integer", context)),
        },
    }
}

/// Extract an array at the given `key`, from the `config` TOML table
/// interpreted as a `context`
pub fn slice<'a>(key: &str, config: &'a Table, context: &str) -> (found: Result<
    &'a [Value],
    Error,
>)
    ensures
        match found {
            Ok(items) => slice_outcome(key@, *config, context@) == Ok::<Seq<Value>, Seq<char>>(
                items@,
            ),
            Err(error) => slice_outcome(key@, *config, context@) == Err::<Seq<Value>, Seq<char>>(
                error.message@,
            ),
        },
{
    match entry(config, key) {
        None => Err(error_missing(key, context)),
        Some(value) => match as_array(value) {
            Some(items) => Ok(items.as_slice()),
            None => Err(error_wrong_type(key, "an array", context)),
        },
    }
}

/// Extract the string 'type' key in a TOML table
pub fn typ<'a>(config: &'a Table, context: &str) -> (found: Result<&'a str, Error>)
    ensures
        match found {
            Ok(text) => typ_outcome(*config, context@) == Ok::<Seq<char>, Seq<char>>(text@),
            Err(error) => typ_outcome(*config, context@) == Err::<Seq<char>, Seq<char>>(
                error.message@,
            ),
        },
{
    match entry(config, "type") {
        None => Err(error_missing("type", context)),
        Some(value) => match as_str(value) {
            Some(text) => Ok(text),
            None => {
                let mut message = String::from_str("'type' key must be a string in ");
                message.append(context);
                Err(Error { message })
            },
        },
    }
}

} // verus!
